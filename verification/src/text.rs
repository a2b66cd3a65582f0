//! Character-level string operations shared by the parsers.
//!
//! Strings are handled as `Vec<char>` in executable code and as `Seq<char>`
//! in specifications; the two conversions at the edge are the only places
//! where the standard library's string internals are relied upon.

use vstd::prelude::*;

verus! {

/// The characters of `s`, in order (`str::chars`).
#[verifier::external_body]
pub fn chars_of(s: &str) -> (v: Vec<char>)
    ensures
        v@ == s@,
{
    s.chars().collect()
}

/// A `String` holding exactly the characters of `v` (`FromIterator<char>`).
#[verifier::external_body]
pub fn string_of(v: &Vec<char>) -> (s: String)
    ensures
        s@ == v@,
{
    v.iter().collect()
}

/// Unicode `White_Space`, the property that `char::is_whitespace` tests.
pub open spec fn is_ws(c: char) -> bool {
    ||| ('\u{9}' <= c && c <= '\u{d}')
    ||| c == ' '
    ||| c == '\u{85}'
    ||| c == '\u{a0}'
    ||| c == '\u{1680}'
    ||| ('\u{2000}' <= c && c <= '\u{200a}')
    ||| c == '\u{2028}'
    ||| c == '\u{2029}'
    ||| c == '\u{202f}'
    ||| c == '\u{205f}'
    ||| c == '\u{3000}'
}

pub fn is_whitespace(c: char) -> (b: bool)
    ensures
        b == is_ws(c),
{
    ('\u{9}' <= c && c <= '\u{d}') || c == ' ' || c == '\u{85}' || c == '\u{a0}' || c == '\u{1680}'
        || ('\u{2000}' <= c && c <= '\u{200a}') || c == '\u{2028}' || c == '\u{2029}'
        || c == '\u{202f}' || c == '\u{205f}' || c == '\u{3000}'
}

/// Elements `i..j` of `v`.
pub fn subvec<T: Copy>(v: &Vec<T>, i: usize, j: usize) -> (r: Vec<T>)
    requires
        i <= j <= v.len(),
    ensures
        r@ == v@.subrange(i as int, j as int),
{
    let mut r: Vec<T> = Vec::new();
    let mut k = i;
    while k < j
        invariant
            i <= k <= j <= v.len(),
            r@ == v@.subrange(i as int, k as int),
        decreases j - k,
    {
        r.push(v[k]);
        k += 1;
    }
    r
}

/// `s` without the leading characters that satisfy `p`.
pub open spec fn strip_start(s: Seq<char>, p: spec_fn(char) -> bool) -> Seq<char>
    decreases s.len(),
{
    if s.len() > 0 && p(s[0]) {
        strip_start(s.drop_first(), p)
    } else {
        s
    }
}

/// `s` without the trailing characters that satisfy `p`.
pub open spec fn strip_end(s: Seq<char>, p: spec_fn(char) -> bool) -> Seq<char>
    decreases s.len(),
{
    if s.len() > 0 && p(s.last()) {
        strip_end(s.drop_last(), p)
    } else {
        s
    }
}

/// `s` without leading and trailing characters that satisfy `p`.
pub open spec fn strip(s: Seq<char>, p: spec_fn(char) -> bool) -> Seq<char> {
    strip_end(strip_start(s, p), p)
}

pub open spec fn ws_pred() -> spec_fn(char) -> bool {
    |c: char| is_ws(c)
}

/// What `str::trim` leaves of `s`.
pub open spec fn trim(s: Seq<char>) -> Seq<char> {
    strip(s, ws_pred())
}

pub open spec fn in_set_pred(set: Seq<char>) -> spec_fn(char) -> bool {
    |c: char| set.contains(c)
}

/// What `str::trim_matches` with a set of characters leaves of `s`.
pub open spec fn trim_set(s: Seq<char>, set: Seq<char>) -> Seq<char> {
    strip(s, in_set_pred(set))
}

proof fn lemma_strip_start_skip(s: Seq<char>, p: spec_fn(char) -> bool, i: int)
    requires
        0 <= i < s.len(),
        p(s[i]),
    ensures
        strip_start(s.skip(i), p) == strip_start(s.skip(i + 1), p),
{
    assert(s.skip(i).drop_first() =~= s.skip(i + 1));
}

proof fn lemma_strip_end_take(s: Seq<char>, p: spec_fn(char) -> bool, i: int, j: int)
    requires
        0 <= i < j <= s.len(),
        p(s[j - 1]),
    ensures
        strip_end(s.subrange(i, j), p) == strip_end(s.subrange(i, j - 1), p),
{
    assert(s.subrange(i, j).drop_last() =~= s.subrange(i, j - 1));
}

fn in_chars(set: &Vec<char>, c: char) -> (b: bool)
    ensures
        b == set@.contains(c),
{
    let mut k: usize = 0;
    while k < set.len()
        invariant
            k <= set.len(),
            forall|m: int| 0 <= m < k ==> set@[m] != c,
        decreases set.len() - k,
    {
        if set[k] == c {
            return true;
        }
        k += 1;
    }
    false
}

/// Whether `c` is whitespace or, when `ws` is false, a member of `set`.
fn strip_test(c: char, ws: bool, set: &Vec<char>) -> (b: bool)
    ensures
        b == (if ws { is_ws(c) } else { set@.contains(c) }),
{
    if ws {
        is_whitespace(c)
    } else {
        in_chars(set, c)
    }
}

fn strip_exec(v: &Vec<char>, ws: bool, set: &Vec<char>) -> (r: Vec<char>)
    ensures
        r@ == strip(v@, if ws { ws_pred() } else { in_set_pred(set@) }),
{
    let ghost p = if ws { ws_pred() } else { in_set_pred(set@) };
    let mut i: usize = 0;
    assert(v@.skip(0) =~= v@);
    while i < v.len() && strip_test(v[i], ws, set)
        invariant
            i <= v.len(),
            p == (if ws { ws_pred() } else { in_set_pred(set@) }),
            strip_start(v@, p) == strip_start(v@.skip(i as int), p),
        decreases v.len() - i,
    {
        proof {
            lemma_strip_start_skip(v@, p, i as int);
        }
        i += 1;
    }
    assert(strip_start(v@, p) =~= v@.subrange(i as int, v.len() as int));
    let mut j: usize = v.len();
    while j > i && strip_test(v[j - 1], ws, set)
        invariant
            i <= j <= v.len(),
            p == (if ws { ws_pred() } else { in_set_pred(set@) }),
            strip(v@, p) == strip_end(v@.subrange(i as int, j as int), p),
        decreases j - i,
    {
        proof {
            lemma_strip_end_take(v@, p, i as int, j as int);
        }
        j -= 1;
    }
    subvec(v, i, j)
}

/// `str::trim` on a character vector.
pub fn trim_chars(v: &Vec<char>) -> (r: Vec<char>)
    ensures
        r@ == trim(v@),
{
    let none: Vec<char> = Vec::new();
    strip_exec(v, true, &none)
}

/// `str::trim_matches` with a set of characters.
pub fn trim_set_chars(v: &Vec<char>, set: &Vec<char>) -> (r: Vec<char>)
    ensures
        r@ == trim_set(v@, set@),
{
    strip_exec(v, false, set)
}

/// `p` occurs in `s` starting at index `i`.
pub open spec fn occurs_at<T>(s: Seq<T>, p: Seq<T>, i: int) -> bool {
    0 <= i && i + p.len() <= s.len() && s.subrange(i, i + p.len()) == p
}

/// `p` occurs somewhere in `s` (`str::contains`).
pub open spec fn contains_seq<T>(s: Seq<T>, p: Seq<T>) -> bool {
    exists|i: int| occurs_at(s, p, i)
}

/// The first index at which `p` occurs in `s` (`str::find`).
pub open spec fn first_occurrence<T>(s: Seq<T>, p: Seq<T>, r: Option<usize>) -> bool {
    match r {
        Some(i) => occurs_at(s, p, i as int) && forall|j: int| 0 <= j < i ==> !occurs_at(s, p, j),
        None => forall|j: int| !occurs_at(s, p, j),
    }
}

/// The first index at which `p` occurs in `s`, when it occurs.
pub open spec fn first_index<T>(s: Seq<T>, p: Seq<T>) -> int {
    choose|i: int| occurs_at(s, p, i) && forall|j: int| 0 <= j < i ==> !occurs_at(s, p, j)
}

/// `s` cut off where `p` first occurs; all of `s` when it does not occur.
pub open spec fn cut_at<T>(s: Seq<T>, p: Seq<T>) -> Seq<T> {
    if contains_seq(s, p) {
        s.take(first_index(s, p))
    } else {
        s
    }
}

/// A first occurrence found by search is the one `first_index` names.
pub proof fn lemma_first_index<T>(s: Seq<T>, p: Seq<T>, i: usize)
    requires
        first_occurrence(s, p, Some(i)),
    ensures
        contains_seq(s, p),
        first_index(s, p) == i,
{
    assert(occurs_at(s, p, i as int));
    let j = first_index(s, p);
    if j < i {
    } else if j > i {
        assert(!occurs_at(s, p, i as int));
    }
}

/// Whether `p` occurs in `s` at `i`.
pub fn occurs_at_exec(s: &Vec<char>, p: &Vec<char>, i: usize) -> (b: bool)
    ensures
        b == occurs_at(s@, p@, i as int),
{
    if i > s.len() || p.len() > s.len() - i {
        return false;
    }
    let mut k: usize = 0;
    while k < p.len()
        invariant
            k <= p.len(),
            i + p.len() <= s.len(),
            forall|m: int| 0 <= m < k ==> s@[i + m] == p@[m],
        decreases p.len() - k,
    {
        if s[i + k] != p[k] {
            assert(s@.subrange(i as int, i + p.len())[k as int] != p@[k as int]);
            return false;
        }
        k += 1;
    }
    assert(s@.subrange(i as int, i + p.len()) =~= p@);
    true
}

/// `str::find` on character vectors.
pub fn find_chars(s: &Vec<char>, p: &Vec<char>) -> (r: Option<usize>)
    ensures
        first_occurrence(s@, p@, r),
{
    if p.len() > s.len() {
        return None;
    }
    let n = s.len() - p.len();
    let mut i: usize = 0;
    loop
        invariant
            p.len() <= s.len(),
            n == s.len() - p.len(),
            i <= n,
            forall|j: int| 0 <= j < i ==> !occurs_at(s@, p@, j),
        decreases n - i,
    {
        if occurs_at_exec(s, p, i) {
            return Some(i);
        }
        if i == n {
            return None;
        }
        i += 1;
    }
}

/// `str::contains` on character vectors.
pub fn contains_chars(s: &Vec<char>, p: &Vec<char>) -> (b: bool)
    ensures
        b == contains_seq(s@, p@),
{
    match find_chars(s, p) {
        Some(i) => true,
        None => false,
    }
}

/// `str::starts_with` on character vectors.
pub fn starts_with_chars(s: &Vec<char>, p: &Vec<char>) -> (b: bool)
    ensures
        b == p@.is_prefix_of(s@),
{
    let b = occurs_at_exec(s, p, 0);
    proof {
        if p@.len() <= s@.len() {
            assert(s@.subrange(0, p@.len() as int) =~= s@.take(p@.len() as int));
        }
    }
    b
}

/// `v` followed by the elements of `w`.
pub fn append_all<T: Copy>(v: &mut Vec<T>, w: &Vec<T>)
    ensures
        final(v)@ == old(v)@ + w@,
{
    let mut k: usize = 0;
    while k < w.len()
        invariant
            k <= w.len(),
            v@ == old(v)@ + w@.take(k as int),
        decreases w.len() - k,
    {
        v.push(w[k]);
        k += 1;
        assert(w@.take(k as int) =~= w@.take(k - 1) + seq![w@[k - 1]]);
    }
    assert(w@.take(k as int) =~= w@);
}

/// The last index of `c` in `s` (`str::rfind` with a character).
pub open spec fn last_index_of(s: Seq<char>, c: char, r: Option<usize>) -> bool {
    match r {
        Some(i) => i < s.len() && s[i as int] == c && forall|j: int| i < j < s.len() ==> s[j] != c,
        None => forall|j: int| 0 <= j < s.len() ==> s[j] != c,
    }
}

pub fn rfind_char(s: &Vec<char>, c: char) -> (r: Option<usize>)
    ensures
        last_index_of(s@, c, r),
{
    let mut i = s.len();
    while i > 0
        invariant
            i <= s.len(),
            forall|j: int| i <= j < s.len() ==> s@[j] != c,
        decreases i,
    {
        if s[i - 1] == c {
            return Some(i - 1);
        }
        i -= 1;
    }
    None
}

/// `str::replace` for a non-empty pattern: every non-overlapping occurrence
/// of `p`, scanning from the left, replaced by `r`. An empty pattern leaves
/// `s` as it is (no caller replaces an empty pattern).
pub open spec fn replace(s: Seq<char>, p: Seq<char>, r: Seq<char>) -> Seq<char>
    decreases s.len(),
{
    if p.len() == 0 || s.len() < p.len() {
        s
    } else if s.take(p.len() as int) == p {
        r + replace(s.skip(p.len() as int), p, r)
    } else {
        seq![s[0]] + replace(s.drop_first(), p, r)
    }
}

pub fn replace_chars(s: &Vec<char>, p: &Vec<char>, r: &Vec<char>) -> (out: Vec<char>)
    ensures
        out@ == replace(s@, p@, r@),
{
    if p.len() == 0 {
        let same = subvec(s, 0, s.len());
        assert(same@ =~= s@);
        return same;
    }
    let mut out: Vec<char> = Vec::new();
    let mut i: usize = 0;
    assert(s@.skip(0) =~= s@);
    while i < s.len()
        invariant
            i <= s.len(),
            p.len() > 0,
            out@ + replace(s@.skip(i as int), p@, r@) == replace(s@, p@, r@),
        decreases s.len() - i,
    {
        let ghost rest = s@.skip(i as int);
        if occurs_at_exec(s, p, i) {
            assert(rest.take(p.len() as int) =~= s@.subrange(i as int, i + p.len()));
            assert(rest.skip(p.len() as int) =~= s@.skip(i + p.len()));
            assert(out@ + r@ + replace(s@.skip(i + p.len()), p@, r@) == out@ + (r@ + replace(
                s@.skip(i + p.len()),
                p@,
                r@,
            )));
            append_all(&mut out, r);
            i += p.len();
        } else {
            proof {
                if rest.len() >= p.len() {
                    assert(rest.take(p.len() as int) =~= s@.subrange(i as int, i + p.len()));
                }
                assert(rest.drop_first() =~= s@.skip(i + 1));
                if rest.len() < p.len() {
                    if i + 1 <= s.len() {
                        assert(replace(s@.skip(i + 1), p@, r@) == s@.skip(i + 1));
                    }
                    assert(rest =~= seq![s@[i as int]] + s@.skip(i + 1));
                }
                assert(out@.push(s@[i as int]) + replace(s@.skip(i + 1), p@, r@) =~= out@ + (
                seq![s@[i as int]] + replace(s@.skip(i + 1), p@, r@)));
            }
            out.push(s[i]);
            i += 1;
        }
    }
    assert(s@.skip(i as int) =~= Seq::<char>::empty());
    assert(out@ + Seq::<char>::empty() =~= out@);
    out
}

/// A closed run of non-separator characters is emitted as one piece.
pub open spec fn flush(cur: Seq<char>) -> Seq<Seq<char>> {
    if cur.len() > 0 {
        seq![cur]
    } else {
        seq![]
    }
}

/// Whitespace-separated words of `s`, given the word `cur` already begun
/// (`str::split_whitespace`).
pub open spec fn words_acc(s: Seq<char>, cur: Seq<char>) -> Seq<Seq<char>>
    decreases s.len(),
{
    if s.len() == 0 {
        flush(cur)
    } else if is_ws(s[0]) {
        flush(cur) + words_acc(s.drop_first(), seq![])
    } else {
        words_acc(s.drop_first(), cur.push(s[0]))
    }
}

pub open spec fn words(s: Seq<char>) -> Seq<Seq<char>> {
    words_acc(s, seq![])
}

pub open spec fn views(v: Seq<Vec<char>>) -> Seq<Seq<char>> {
    v.map_values(|w: Vec<char>| w@)
}

proof fn lemma_views_push(v: Seq<Vec<char>>, w: Vec<char>)
    ensures
        views(v.push(w)) == views(v).push(w@),
{
    assert(views(v.push(w)) =~= views(v).push(w@));
}

pub fn split_whitespace(s: &Vec<char>) -> (out: Vec<Vec<char>>)
    ensures
        views(out@) == words(s@),
{
    let mut out: Vec<Vec<char>> = Vec::new();
    let mut cur: Vec<char> = Vec::new();
    let mut i: usize = 0;
    assert(s@.skip(0) =~= s@);
    assert(views(out@) =~= Seq::<Seq<char>>::empty());
    while i < s.len()
        invariant
            i <= s.len(),
            views(out@) + words_acc(s@.skip(i as int), cur@) == words(s@),
        decreases s.len() - i,
    {
        let ghost rest = s@.skip(i as int);
        assert(rest.drop_first() =~= s@.skip(i + 1));
        if is_whitespace(s[i]) {
            if cur.len() > 0 {
                proof {
                    lemma_views_push(out@, cur);
                    assert(views(out@) + (flush(cur@) + words_acc(s@.skip(i + 1), seq![])) =~= views(
                        out@,
                    ).push(cur@) + words_acc(s@.skip(i + 1), seq![]));
                }
                out.push(cur);
            } else {
                assert(views(out@) + (flush(cur@) + words_acc(s@.skip(i + 1), seq![])) =~= views(out@)
                    + words_acc(s@.skip(i + 1), seq![]));
            }
            cur = Vec::new();
        } else {
            cur.push(s[i]);
        }
        i += 1;
    }
    assert(s@.skip(i as int) =~= Seq::<char>::empty());
    if cur.len() > 0 {
        proof {
            lemma_views_push(out@, cur);
            assert(views(out@) + flush(cur@) =~= views(out@).push(cur@));
        }
        out.push(cur);
    } else {
        assert(views(out@) + flush(cur@) =~= views(out@));
    }
    out
}

/// Pieces of `s` between occurrences of `c`, given the piece `cur` already
/// begun (`str::split` with a character: empty pieces are kept).
pub open spec fn split_acc(s: Seq<char>, c: char, cur: Seq<char>) -> Seq<Seq<char>>
    decreases s.len(),
{
    if s.len() == 0 {
        seq![cur]
    } else if s[0] == c {
        seq![cur] + split_acc(s.drop_first(), c, seq![])
    } else {
        split_acc(s.drop_first(), c, cur.push(s[0]))
    }
}

pub open spec fn split(s: Seq<char>, c: char) -> Seq<Seq<char>> {
    split_acc(s, c, seq![])
}

pub fn split_char(s: &Vec<char>, c: char) -> (out: Vec<Vec<char>>)
    ensures
        views(out@) == split(s@, c),
{
    let mut out: Vec<Vec<char>> = Vec::new();
    let mut cur: Vec<char> = Vec::new();
    let mut i: usize = 0;
    assert(s@.skip(0) =~= s@);
    assert(views(out@) =~= Seq::<Seq<char>>::empty());
    while i < s.len()
        invariant
            i <= s.len(),
            views(out@) + split_acc(s@.skip(i as int), c, cur@) == split(s@, c),
        decreases s.len() - i,
    {
        let ghost rest = s@.skip(i as int);
        assert(rest.drop_first() =~= s@.skip(i + 1));
        if s[i] == c {
            proof {
                lemma_views_push(out@, cur);
                assert(views(out@) + (seq![cur@] + split_acc(s@.skip(i + 1), c, seq![])) =~= views(
                    out@,
                ).push(cur@) + split_acc(s@.skip(i + 1), c, seq![]));
            }
            out.push(cur);
            cur = Vec::new();
        } else {
            cur.push(s[i]);
        }
        i += 1;
    }
    assert(s@.skip(i as int) =~= Seq::<char>::empty());
    proof {
        lemma_views_push(out@, cur);
        assert(views(out@) + seq![cur@] =~= views(out@).push(cur@));
    }
    out.push(cur);
    out
}

/// Splitting always yields at least one piece.
pub proof fn lemma_split_nonempty(s: Seq<char>, c: char)
    ensures
        split(s, c).len() > 0,
{
    lemma_split_acc_nonempty(s, c, seq![]);
}

proof fn lemma_split_acc_nonempty(s: Seq<char>, c: char, cur: Seq<char>)
    ensures
        split_acc(s, c, cur).len() > 0,
    decreases s.len(),
{
    if s.len() > 0 {
        if s[0] == c {
            lemma_split_acc_nonempty(s.drop_first(), c, seq![]);
        } else {
            lemma_split_acc_nonempty(s.drop_first(), c, cur.push(s[0]));
        }
    }
}

/// The pieces of `ws` with `sep` between each two (`slice::join`).
pub open spec fn join(ws: Seq<Seq<char>>, sep: Seq<char>) -> Seq<char>
    decreases ws.len(),
{
    if ws.len() == 0 {
        seq![]
    } else if ws.len() == 1 {
        ws[0]
    } else {
        join(ws.drop_last(), sep) + sep + ws.last()
    }
}

pub fn join_chars(ws: &Vec<Vec<char>>, sep: &Vec<char>) -> (out: Vec<char>)
    ensures
        out@ == join(views(ws@), sep@),
{
    let mut out: Vec<char> = Vec::new();
    let mut k: usize = 0;
    while k < ws.len()
        invariant
            k <= ws.len(),
            out@ == join(views(ws@).take(k as int), sep@),
        decreases ws.len() - k,
    {
        let ghost prev = views(ws@).take(k as int);
        assert(views(ws@).take(k + 1).drop_last() =~= prev);
        if k > 0 {
            append_all(&mut out, sep);
        }
        append_all(&mut out, &ws[k]);
        k += 1;
    }
    assert(views(ws@).take(k as int) =~= views(ws@));
    out
}

/// ASCII lower-case of one character (`char::to_ascii_lowercase`).
pub open spec fn ascii_lower(c: char) -> char {
    if 'A' <= c && c <= 'Z' {
        ((c as u32) + 32) as char
    } else {
        c
    }
}

pub open spec fn ascii_lower_all(s: Seq<char>) -> Seq<char> {
    s.map_values(|c: char| ascii_lower(c))
}

pub fn to_ascii_lowercase(s: &Vec<char>) -> (out: Vec<char>)
    ensures
        out@ == ascii_lower_all(s@),
{
    let mut out: Vec<char> = Vec::new();
    let mut k: usize = 0;
    while k < s.len()
        invariant
            k <= s.len(),
            out@ == ascii_lower_all(s@.take(k as int)),
        decreases s.len() - k,
    {
        let c = s[k];
        let l = if 'A' <= c && c <= 'Z' {
            ((c as u8) + 32) as char
        } else {
            c
        };
        assert(ascii_lower_all(s@.take(k + 1)) =~= ascii_lower_all(s@.take(k as int)).push(
            ascii_lower(c),
        ));
        out.push(l);
        k += 1;
    }
    assert(s@.take(k as int) =~= s@);
    out
}

/// The decimal digit character for `d`.
pub open spec fn digit_char(d: nat) -> char {
    (48 + d) as char
}

/// Decimal representation of `n`, without leading zeros (`u64`'s `Display`).
pub open spec fn decimal(n: nat) -> Seq<char>
    decreases n,
{
    if n < 10 {
        seq![digit_char(n)]
    } else {
        decimal(n / 10) + seq![digit_char(n % 10)]
    }
}

pub fn push_decimal(n: u64, out: &mut Vec<char>)
    ensures
        final(out)@ == old(out)@ + decimal(n as nat),
    decreases n,
{
    if n >= 10 {
        push_decimal(n / 10, out);
    }
    let d = (n % 10) as u8;
    let c = (48u8 + d) as char;
    assert(c == digit_char((n % 10) as nat));
    out.push(c);
}

/// Decimal text of `n`.
pub fn decimal_string(n: u64) -> (s: String)
    ensures
        s@ == decimal(n as nat),
{
    let mut v: Vec<char> = Vec::new();
    push_decimal(n, &mut v);
    string_of(&v)
}

pub open spec fn is_digit(c: char) -> bool {
    '0' <= c && c <= '9'
}

/// Value of a string of decimal digits.
pub open spec fn digits_value(d: Seq<char>) -> nat
    decreases d.len(),
{
    if d.len() == 0 {
        0
    } else {
        digits_value(d.drop_last()) * 10 + ((d.last() as nat) - 48) as nat
    }
}

/// The digits that `u32::from_str` reads: an optional leading `+` removed.
pub open spec fn unsigned_digits(s: Seq<char>) -> Seq<char> {
    if s.len() > 0 && s[0] == '+' {
        s.drop_first()
    } else {
        s
    }
}

/// What `s.parse::<u32>()` gives: an optional `+`, then one or more ASCII
/// digits whose value fits in 32 bits.
pub open spec fn parse_u32(s: Seq<char>) -> Option<u32> {
    let d = unsigned_digits(s);
    if d.len() > 0 && (forall|i: int| 0 <= i < d.len() ==> is_digit(d[i])) && digits_value(d)
        <= u32::MAX {
        Some(digits_value(d) as u32)
    } else {
        None
    }
}

proof fn lemma_digits_value_grows(d: Seq<char>, i: int, j: int)
    requires
        0 <= i <= j <= d.len(),
        forall|k: int| 0 <= k < d.len() ==> is_digit(d[k]),
    ensures
        digits_value(d.take(i)) <= digits_value(d.take(j)),
    decreases j - i,
{
    if i < j {
        lemma_digits_value_grows(d, i, j - 1);
        assert(d.take(j).drop_last() =~= d.take(j - 1));
    }
}

pub fn parse_u32_chars(s: &Vec<char>) -> (r: Option<u32>)
    ensures
        r == parse_u32(s@),
{
    let start: usize = if s.len() > 0 && s[0] == '+' { 1 } else { 0 };
    let ghost d = unsigned_digits(s@);
    assert(d =~= s@.skip(start as int));
    if start >= s.len() {
        return None;
    }
    let mut acc: u64 = 0;
    let mut k: usize = start;
    while k < s.len()
        invariant
            start <= k <= s.len(),
            d == s@.skip(start as int),
            d == unsigned_digits(s@),
            forall|m: int| 0 <= m < k - start ==> is_digit(d[m]),
            acc == digits_value(d.take(k - start)),
            acc <= u32::MAX,
        decreases s.len() - k,
    {
        let c = s[k];
        if !('0' <= c && c <= '9') {
            assert(d[k - start] == c);
            assert(!is_digit(d[k - start]));
            return None;
        }
        let ghost t = d.take(k - start + 1);
        assert(t.drop_last() =~= d.take(k - start));
        let next = acc * 10 + ((c as u32) - 48) as u64;
        if next > 4294967295 {
            proof {
                if forall|m: int| 0 <= m < d.len() ==> is_digit(d[m]) {
                    lemma_digits_value_grows(d, k - start + 1, d.len() as int);
                    assert(d.take(d.len() as int) =~= d);
                }
            }
            return None;
        }
        acc = next;
        k += 1;
    }
    assert(d.take(k - start) =~= d);
    Some(acc as u32)
}

/// Every character is ASCII.
pub open spec fn all_ascii(s: Seq<char>) -> bool {
    forall|i: int| 0 <= i < s.len() ==> (s[i] as u32) < 128
}

/// ASCII upper-case of one character (`char::to_ascii_uppercase`).
pub open spec fn ascii_upper(c: char) -> char {
    if 'a' <= c && c <= 'z' {
        ((c as u32) - 32) as char
    } else {
        c
    }
}

pub open spec fn ascii_upper_all(s: Seq<char>) -> Seq<char> {
    s.map_values(|c: char| ascii_upper(c))
}

/// Unicode lower case of a string (`str::to_lowercase`).
pub uninterp spec fn lowercase(s: Seq<char>) -> Seq<char>;

/// Unicode upper case of a string (`str::to_uppercase`).
pub uninterp spec fn uppercase(s: Seq<char>) -> Seq<char>;

/// Calls `str::to_lowercase`; its result is named `lowercase`. In the
/// Unicode case data, ASCII text maps to its ASCII lower case.
#[verifier::external_body]
pub fn to_lowercase(s: &Vec<char>) -> (r: Vec<char>)
    ensures
        r@ == lowercase(s@),
        all_ascii(s@) ==> r@ == ascii_lower_all(s@),
{
    let text: String = s.iter().collect();
    text.to_lowercase().chars().collect()
}

/// Calls `str::to_uppercase`; its result is named `uppercase`. In the
/// Unicode case data, ASCII text maps to its ASCII upper case.
#[verifier::external_body]
pub fn to_uppercase(s: &Vec<char>) -> (r: Vec<char>)
    ensures
        r@ == uppercase(s@),
        all_ascii(s@) ==> r@ == ascii_upper_all(s@),
{
    let text: String = s.iter().collect();
    text.to_uppercase().chars().collect()
}

/// Views of a sequence of strings.
pub open spec fn string_views(s: Seq<String>) -> Seq<Seq<char>> {
    s.map_values(|t: String| t@)
}

/// A copy of a list of strings.
pub fn clone_strings(v: &Vec<String>) -> (r: Vec<String>)
    ensures
        r@ == v@,
{
    let mut r: Vec<String> = Vec::new();
    let mut k: usize = 0;
    while k < v.len()
        invariant
            k <= v.len(),
            r@ == v@.take(k as int),
        decreases v.len() - k,
    {
        r.push(v[k].clone());
        k += 1;
        assert(r@ =~= v@.take(k as int));
    }
    assert(v@.take(k as int) =~= v@);
    r
}

/// Views of a sequence of string slices.
pub open spec fn strs_views(s: Seq<&str>) -> Seq<Seq<char>> {
    s.map_values(|t: &str| t@)
}

/// Whether two character vectors are equal.
pub fn eq_chars(a: &Vec<char>, b: &Vec<char>) -> (r: bool)
    ensures
        r == (a@ == b@),
{
    if a.len() != b.len() {
        return false;
    }
    let mut k: usize = 0;
    while k < a.len()
        invariant
            k <= a.len(),
            a.len() == b.len(),
            forall|m: int| 0 <= m < k ==> a@[m] == b@[m],
        decreases a.len() - k,
    {
        if a[k] != b[k] {
            return false;
        }
        k += 1;
    }
    assert(a@ =~= b@);
    true
}

/// Whether `x` is one of the strings in `list`.
pub fn in_list(list: &[&str], x: &Vec<char>) -> (r: bool)
    ensures
        r == strs_views(list@).contains(x@),
{
    let mut k: usize = 0;
    while k < list.len()
        invariant
            k <= list@.len(),
            forall|m: int| 0 <= m < k ==> list@[m]@ != x@,
        decreases list@.len() - k,
    {
        if eq_chars(&chars_of(list[k]), x) {
            assert(strs_views(list@)[k as int] == x@);
            return true;
        }
        k += 1;
    }
    assert forall|m: int| 0 <= m < strs_views(list@).len() implies strs_views(list@)[m] != x@ by {
        assert(strs_views(list@)[m] == list@[m]@);
    };
    false
}

/// Every character of `s` satisfies `q`.
pub open spec fn all_chars(s: Seq<char>, q: spec_fn(char) -> bool) -> bool {
    forall|i: int| 0 <= i < s.len() ==> #[trigger] q(s[i])
}

/// `c` does not occur in `s`.
pub open spec fn avoids(s: Seq<char>, c: char) -> bool {
    forall|i: int| 0 <= i < s.len() ==> s[i] != c
}

/// `avoids` is `all_chars` of a test that holds of every character but `c`.
pub proof fn lemma_avoids_all(s: Seq<char>, c: char, q: spec_fn(char) -> bool)
    requires
        forall|x: char| #[trigger] q(x) == (x != c),
    ensures
        avoids(s, c) == all_chars(s, q),
{
    if avoids(s, c) {
        assert forall|i: int| 0 <= i < s.len() implies #[trigger] q(s[i]) by {};
    }
    if all_chars(s, q) {
        assert forall|i: int| 0 <= i < s.len() implies s[i] != c by {
            assert(q(s[i]));
        };
    }
}

pub proof fn lemma_all_chars_take(s: Seq<char>, q: spec_fn(char) -> bool, n: int)
    requires
        all_chars(s, q),
        0 <= n <= s.len(),
    ensures
        all_chars(s.take(n), q),
        all_chars(s.skip(n), q),
{
    assert forall|i: int| 0 <= i < s.take(n).len() implies #[trigger] q(s.take(n)[i]) by {
        assert(s.take(n)[i] == s[i]);
    };
    assert forall|i: int| 0 <= i < s.skip(n).len() implies #[trigger] q(s.skip(n)[i]) by {
        assert(s.skip(n)[i] == s[i + n]);
    };
}

pub proof fn lemma_all_chars_add(a: Seq<char>, b: Seq<char>, q: spec_fn(char) -> bool)
    requires
        all_chars(a, q),
        all_chars(b, q),
    ensures
        all_chars(a + b, q),
{
    assert forall|i: int| 0 <= i < (a + b).len() implies #[trigger] q((a + b)[i]) by {
        if i < a.len() {
            assert((a + b)[i] == a[i]);
        } else {
            assert((a + b)[i] == b[i - a.len()]);
        }
    };
}

/// Stripping keeps only characters of `s`.
pub proof fn lemma_strip_all(s: Seq<char>, p: spec_fn(char) -> bool, q: spec_fn(char) -> bool)
    requires
        all_chars(s, q),
    ensures
        all_chars(strip(s, p), q),
{
    lemma_strip_start_all(s, p, q);
    lemma_strip_end_all(strip_start(s, p), p, q);
}

proof fn lemma_strip_start_all(s: Seq<char>, p: spec_fn(char) -> bool, q: spec_fn(char) -> bool)
    requires
        all_chars(s, q),
    ensures
        all_chars(strip_start(s, p), q),
    decreases s.len(),
{
    if s.len() > 0 && p(s[0]) {
        lemma_all_chars_take(s, q, 1);
        assert(s.skip(1) =~= s.drop_first());
        lemma_strip_start_all(s.drop_first(), p, q);
    }
}

proof fn lemma_strip_end_all(s: Seq<char>, p: spec_fn(char) -> bool, q: spec_fn(char) -> bool)
    requires
        all_chars(s, q),
    ensures
        all_chars(strip_end(s, p), q),
    decreases s.len(),
{
    if s.len() > 0 && p(s.last()) {
        lemma_all_chars_take(s, q, s.len() - 1);
        assert(s.take(s.len() - 1) =~= s.drop_last());
        lemma_strip_end_all(s.drop_last(), p, q);
    }
}

/// Trimming text made only of whitespace leaves nothing.
pub proof fn lemma_trim_blank(s: Seq<char>, q: spec_fn(char) -> bool)
    requires
        all_chars(s, q),
        forall|x: char| #[trigger] q(x) ==> is_ws(x),
    ensures
        trim(s).len() == 0,
{
    lemma_strip_start_blank(s, q);
    assert(strip_end(Seq::<char>::empty(), ws_pred()) == Seq::<char>::empty());
}

proof fn lemma_strip_start_blank(s: Seq<char>, q: spec_fn(char) -> bool)
    requires
        all_chars(s, q),
        forall|x: char| #[trigger] q(x) ==> is_ws(x),
    ensures
        strip_start(s, ws_pred()).len() == 0,
    decreases s.len(),
{
    if s.len() > 0 {
        assert(q(s[0]));
        lemma_all_chars_take(s, q, 1);
        assert(s.skip(1) =~= s.drop_first());
        lemma_strip_start_blank(s.drop_first(), q);
    }
}

/// The first occurrence of a pattern that occurs is a real, leftmost one.
pub proof fn lemma_first_index_exists<T>(s: Seq<T>, p: Seq<T>)
    requires
        contains_seq(s, p),
    ensures
        occurs_at(s, p, first_index(s, p)),
        forall|j: int| 0 <= j < first_index(s, p) ==> !occurs_at(s, p, j),
{
    let i = choose|i: int| occurs_at(s, p, i);
    lemma_leftmost(s, p, i);
}

proof fn lemma_leftmost<T>(s: Seq<T>, p: Seq<T>, i: int)
    requires
        occurs_at(s, p, i),
    ensures
        exists|k: int| occurs_at(s, p, k) && forall|j: int| 0 <= j < k ==> !occurs_at(s, p, j),
    decreases i,
{
    if exists|j: int| 0 <= j < i && occurs_at(s, p, j) {
        let j = choose|j: int| 0 <= j < i && occurs_at(s, p, j);
        lemma_leftmost(s, p, j);
    } else {
        assert(occurs_at(s, p, i) && forall|j: int| 0 <= j < i ==> !occurs_at(s, p, j));
    }
}

/// Cutting keeps only characters of `s`.
pub proof fn lemma_cut_at_all(s: Seq<char>, p: Seq<char>, q: spec_fn(char) -> bool)
    requires
        all_chars(s, q),
    ensures
        all_chars(cut_at(s, p), q),
{
    if contains_seq(s, p) {
        lemma_first_index_exists(s, p);
        lemma_all_chars_take(s, q, first_index(s, p));
    }
}

/// Replacing keeps the characters of `s` and adds those of `r`.
pub proof fn lemma_replace_all(s: Seq<char>, p: Seq<char>, r: Seq<char>, q: spec_fn(char) -> bool)
    requires
        all_chars(s, q),
        all_chars(r, q),
    ensures
        all_chars(replace(s, p, r), q),
    decreases s.len(),
{
    if p.len() == 0 || s.len() < p.len() {
    } else if s.take(p.len() as int) == p {
        lemma_all_chars_take(s, q, p.len() as int);
        lemma_replace_all(s.skip(p.len() as int), p, r, q);
        lemma_all_chars_add(r, replace(s.skip(p.len() as int), p, r), q);
    } else {
        lemma_all_chars_take(s, q, 1);
        assert(s.skip(1) =~= s.drop_first());
        lemma_replace_all(s.drop_first(), p, r, q);
        assert(q(s[0]));
        lemma_all_chars_add(seq![s[0]], replace(s.drop_first(), p, r), q);
    }
}

/// Replacing every `c` by text whose characters pass `q` leaves only
/// characters that pass `q`, when `q` holds of every character but `c`.
pub proof fn lemma_replace_removes(s: Seq<char>, c: char, r: Seq<char>, q: spec_fn(char) -> bool)
    requires
        all_chars(r, q),
        forall|x: char| x != c ==> #[trigger] q(x),
    ensures
        all_chars(replace(s, seq![c], r), q),
    decreases s.len(),
{
    if s.len() >= 1 {
        if s.take(1) == seq![c] {
            lemma_replace_removes(s.skip(1), c, r, q);
            lemma_all_chars_add(r, replace(s.skip(1), seq![c], r), q);
        } else {
            assert(s.take(1) =~= seq![s[0]]);
            assert(s[0] != c);
            assert(q(s[0]));
            lemma_replace_removes(s.drop_first(), c, r, q);
            lemma_all_chars_add(seq![s[0]], replace(s.drop_first(), seq![c], r), q);
        }
    }
}

/// Each word consists of characters of the text.
pub proof fn lemma_words_all(s: Seq<char>, cur: Seq<char>, q: spec_fn(char) -> bool)
    requires
        all_chars(s, q),
        all_chars(cur, q),
    ensures
        forall|k: int| 0 <= k < words_acc(s, cur).len() ==> all_chars(#[trigger] words_acc(s, cur)[k], q),
    decreases s.len(),
{
    let w = words_acc(s, cur);
    if s.len() == 0 {
        assert forall|k: int| 0 <= k < w.len() implies all_chars(#[trigger] w[k], q) by {
            assert(w[k] == cur);
        };
    } else {
        lemma_all_chars_take(s, q, 1);
        assert(s.skip(1) =~= s.drop_first());
        if is_ws(s[0]) {
            lemma_words_all(s.drop_first(), seq![], q);
            let rest = words_acc(s.drop_first(), seq![]);
            assert(w == flush(cur) + rest);
            assert forall|k: int| 0 <= k < w.len() implies all_chars(#[trigger] w[k], q) by {
                if k < flush(cur).len() {
                    assert(w[k] == cur);
                } else {
                    assert(w[k] == rest[k - flush(cur).len()]);
                }
            };
        } else {
            assert(q(s[0]));
            lemma_all_chars_add(cur, seq![s[0]], q);
            assert(cur.push(s[0]) =~= cur + seq![s[0]]);
            lemma_words_all(s.drop_first(), cur.push(s[0]), q);
            let rest = words_acc(s.drop_first(), cur.push(s[0]));
            assert(w == rest);
            assert forall|k: int| 0 <= k < w.len() implies all_chars(#[trigger] w[k], q) by {
                assert(w[k] == rest[k]);
            };
        }
    }
}

/// Each piece of a split consists of characters of the text, and none holds
/// the separator.
pub proof fn lemma_split_all(s: Seq<char>, d: char, cur: Seq<char>, q: spec_fn(char) -> bool)
    requires
        forall|i: int| 0 <= i < s.len() && s[i] != d ==> #[trigger] q(s[i]),
        all_chars(cur, q),
    ensures
        forall|k: int| 0 <= k < split_acc(s, d, cur).len() ==> all_chars(#[trigger] split_acc(s, d, cur)[k], q),
    decreases s.len(),
{
    let w = split_acc(s, d, cur);
    if s.len() == 0 {
        assert forall|k: int| 0 <= k < w.len() implies all_chars(#[trigger] w[k], q) by {
            assert(w[k] == cur);
        };
    } else {
        assert forall|i: int| 0 <= i < s.drop_first().len() && s.drop_first()[i] != d implies #[trigger] q(s.drop_first()[i]) by {
            assert(s.drop_first()[i] == s[i + 1]);
        };
        if s[0] == d {
            lemma_split_all(s.drop_first(), d, seq![], q);
            let rest = split_acc(s.drop_first(), d, seq![]);
            assert(w == seq![cur] + rest);
            assert forall|k: int| 0 <= k < w.len() implies all_chars(#[trigger] w[k], q) by {
                if k == 0 {
                    assert(w[k] == cur);
                } else {
                    assert(w[k] == rest[k - 1]);
                }
            };
        } else {
            assert(q(s[0]));
            lemma_all_chars_add(cur, seq![s[0]], q);
            assert(cur.push(s[0]) =~= cur + seq![s[0]]);
            lemma_split_all(s.drop_first(), d, cur.push(s[0]), q);
            let rest = split_acc(s.drop_first(), d, cur.push(s[0]));
            assert(w == rest);
            assert forall|k: int| 0 <= k < w.len() implies all_chars(#[trigger] w[k], q) by {
                assert(w[k] == rest[k]);
            };
        }
    }
}

/// Joining keeps the characters of the pieces and the separator.
pub proof fn lemma_join_all(ws: Seq<Seq<char>>, sep: Seq<char>, q: spec_fn(char) -> bool)
    requires
        forall|k: int| 0 <= k < ws.len() ==> all_chars(#[trigger] ws[k], q),
        all_chars(sep, q),
    ensures
        all_chars(join(ws, sep), q),
    decreases ws.len(),
{
    if ws.len() == 1 {
        assert(all_chars(ws[0], q));
    } else if ws.len() > 1 {
        assert forall|k: int| 0 <= k < ws.drop_last().len() implies all_chars(#[trigger] ws.drop_last()[k], q) by {
            assert(ws.drop_last()[k] == ws[k]);
        };
        lemma_join_all(ws.drop_last(), sep, q);
        assert(all_chars(ws[ws.len() - 1], q));
        lemma_all_chars_add(join(ws.drop_last(), sep), sep, q);
        lemma_all_chars_add(join(ws.drop_last(), sep) + sep, ws.last(), q);
    }
}

proof fn lemma_strip_start_front(s: Seq<char>, p: spec_fn(char) -> bool)
    ensures
        strip_start(s, p).len() == 0 || !p(strip_start(s, p)[0]),
        strip_start(s, p).len() <= s.len(),
        strip_start(s, p) == s.skip(s.len() - strip_start(s, p).len()),
    decreases s.len(),
{
    if s.len() > 0 && p(s[0]) {
        lemma_strip_start_front(s.drop_first(), p);
        assert(s.drop_first().skip(s.drop_first().len() - strip_start(s, p).len()) =~= s.skip(
            s.len() - strip_start(s, p).len(),
        ));
    } else {
        assert(s.skip(0) =~= s);
    }
}

proof fn lemma_strip_end_back(s: Seq<char>, p: spec_fn(char) -> bool)
    ensures
        strip_end(s, p).len() == 0 || !p(strip_end(s, p).last()),
        strip_end(s, p) == s.take(strip_end(s, p).len() as int),
        strip_end(s, p).len() <= s.len(),
    decreases s.len(),
{
    if s.len() > 0 && p(s.last()) {
        lemma_strip_end_back(s.drop_last(), p);
        assert(s.drop_last().take(strip_end(s, p).len() as int) =~= s.take(strip_end(s, p).len() as int));
    } else {
        assert(s.take(s.len() as int) =~= s);
    }
}

proof fn lemma_strip_start_stays(s: Seq<char>, p: spec_fn(char) -> bool)
    requires
        s.len() == 0 || !p(s[0]),
    ensures
        strip_start(s, p) == s,
{
}

proof fn lemma_strip_end_stays(s: Seq<char>, p: spec_fn(char) -> bool)
    requires
        s.len() == 0 || !p(s.last()),
    ensures
        strip_end(s, p) == s,
{
}

/// Trimming twice is trimming once.
pub proof fn lemma_trim_idempotent(s: Seq<char>)
    ensures
        trim(trim(s)) == trim(s),
{
    let p = ws_pred();
    let a = strip_start(s, p);
    let t = strip_end(a, p);
    lemma_strip_start_front(s, p);
    lemma_strip_end_back(a, p);
    if t.len() > 0 {
        assert(t[0] == a[0]);
    }
    lemma_strip_start_stays(t, p);
    lemma_strip_end_stays(t, p);
}

/// A text with no white space at either end is its own trim.
pub proof fn lemma_trim_unchanged(s: Seq<char>)
    requires
        s.len() == 0 || (!is_ws(s[0]) && !is_ws(s.last())),
    ensures
        trim(s) == s,
{
    lemma_strip_start_stays(s, ws_pred());
    lemma_strip_end_stays(s, ws_pred());
}

proof fn lemma_split_acc_first(s: Seq<char>, c: char, cur: Seq<char>, i: int)
    requires
        0 <= i < s.len(),
        s[i] == c,
        forall|j: int| 0 <= j < i ==> s[j] != c,
    ensures
        split_acc(s, c, cur)[0] == cur + s.take(i),
    decreases s.len(),
{
    if i == 0 {
        assert(cur + s.take(0) =~= cur);
    } else {
        assert(s[0] != c);
        lemma_split_acc_first(s.drop_first(), c, cur.push(s[0]), i - 1);
        assert(cur.push(s[0]) + s.drop_first().take(i - 1) =~= cur + s.take(i));
    }
}

/// The first piece of a split is the text before the first separator.
pub proof fn lemma_split_first(s: Seq<char>, c: char, i: int)
    requires
        0 <= i < s.len(),
        s[i] == c,
        forall|j: int| 0 <= j < i ==> s[j] != c,
    ensures
        split(s, c)[0] == s.take(i),
{
    lemma_split_acc_first(s, c, seq![], i);
    assert(Seq::<char>::empty() + s.take(i) =~= s.take(i));
}

proof fn lemma_words_acc_word(d: Seq<char>, cur: Seq<char>)
    requires
        cur.len() + d.len() > 0,
        forall|k: int| 0 <= k < d.len() ==> !is_ws(#[trigger] d[k]),
    ensures
        words_acc(d, cur) == seq![cur + d],
    decreases d.len(),
{
    if d.len() == 0 {
        assert(cur + d =~= cur);
    } else {
        assert(!is_ws(d[0]));
        lemma_words_acc_word(d.drop_first(), cur.push(d[0]));
        assert(cur.push(d[0]) + d.drop_first() =~= cur + d);
    }
}

proof fn lemma_words_acc_append(s: Seq<char>, d: Seq<char>, cur: Seq<char>)
    requires
        d.len() > 0,
        forall|k: int| 0 <= k < d.len() ==> !is_ws(#[trigger] d[k]),
    ensures
        words_acc(s + seq![' '] + d, cur) == words_acc(s, cur).push(d),
    decreases s.len(),
{
    let t = s + seq![' '] + d;
    if s.len() == 0 {
        assert(t.drop_first() =~= d);
        lemma_words_acc_word(d, seq![]);
        assert(Seq::<char>::empty() + d =~= d);
        assert(flush(cur) + seq![d] =~= flush(cur).push(d));
    } else {
        assert(t.drop_first() =~= s.drop_first() + seq![' '] + d);
        if is_ws(s[0]) {
            lemma_words_acc_append(s.drop_first(), d, seq![]);
            assert(flush(cur) + words_acc(s.drop_first(), seq![]).push(d) =~= (flush(cur) + words_acc(
                s.drop_first(),
                seq![],
            )).push(d));
        } else {
            lemma_words_acc_append(s.drop_first(), d, cur.push(s[0]));
        }
    }
}

/// A word added after a space is the last of the words.
pub proof fn lemma_words_append(s: Seq<char>, d: Seq<char>)
    requires
        d.len() > 0,
        forall|k: int| 0 <= k < d.len() ==> !is_ws(#[trigger] d[k]),
    ensures
        words(s + seq![' '] + d) == words(s).push(d),
{
    lemma_words_acc_append(s, d, seq![]);
}

} // verus!
