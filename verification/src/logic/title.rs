//! Show-title extraction from Douyin share text, with recognition of the
//! "极速" (fast edition) suffix.

use vstd::prelude::*;
use crate::text::{
    all_chars, avoids, lemma_avoids_all, lemma_all_chars_take, lemma_cut_at_all, lemma_join_all, lemma_replace_all,
    lemma_replace_removes, lemma_split_all, lemma_split_nonempty, lemma_strip_all, lemma_trim_blank, lemma_words_all,
    in_set_pred, ws_pred,
    append_all, chars_of, contains_chars, contains_seq, cut_at, find_chars, first_occurrence, in_list, lemma_first_index,
    is_digit, join, join_chars, occurs_at, replace, replace_chars, split, split_char,
    split_whitespace, string_of, strs_views, subvec, trim, trim_chars, trim_set, trim_set_chars,
    views, words, is_ws, lemma_split_first, lemma_words_append,
};

verus! {

/// Hashtags that name a category rather than a show.
pub const CATEGORY_TAGS: [&'static str; 31] = [
    "漫剧", "AI漫剧", "AI", "ai", "AI动画", "ai漫剧", "AI动漫",
    "好剧推荐", "短剧", "短剧推荐", "追剧", "追剧推荐", "抖音", "视频",
    "电影", "动漫", "电视剧", "影视", "推荐", "日常", "热播",
    "新剧", "剧", "漫", "动漫推荐", "推荐短剧", "影视剪辑", "剪辑",
    "douyin", "Douyin", "抖音短剧",
];

/// Share boilerplate removed before looking for the title.
pub const PREFIX_TOKENS: [&'static str; 10] = [
    "复制打开抖音，看看",
    "复制打开抖音看看",
    "复制此链接，打开Dou音搜索，直接观看视频",
    "复制此链接，打开抖音搜索，直接观看视频",
    "复制此链接，打开Dou音搜索",
    "复制此链接，打开抖音搜索",
    "复制此链接，打开Dou音",
    "复制此链接，打开抖音",
    "打开Dou音搜索",
    "打开抖音搜索",
];

/// Boilerplate at which a title candidate is cut off.
pub const CUT_TOKENS: [&'static str; 7] = [
    "复制此链接", "打开Dou音", "直接观看视频", "复制链接",
    "打开抖音", "看看TA的视频", "打开Dou音搜索",
];

/// Characters trimmed from both ends of a cleaned title.
pub const CLEAN_TRIM_SET: &'static str = " \t\n!！。.,，、;；:：/\\@#";

/// A URL.
pub const URL_PATTERN: &'static str = "(?i)https?://\\S+";

/// A 【bracketed】 run.
pub const BRACKET_PATTERN: &'static str = "【[^】]*】";

/// A leading episode number followed by whitespace.
pub const LEADING_NUMBER_PATTERN: &'static str = "^[\\d.]+\\s+";

/// A dash followed by "极速" at the end.
pub const FAST_SUFFIX_PATTERN: &'static str = "\\s*[-~－\\u{2010}-\\u{2015}]\\s*极速\\s*$";

/// A date such as `3/14`.
pub const NOISE_DATE_PATTERN: &'static str = "^\\d{1,2}/\\d{1,2}$";

/// A time such as `8pm`.
pub const NOISE_AMPM_PATTERN: &'static str = "^:?\\d{1,2}(am|pm|AM|PM)$";

/// An account handle such as `@someone`.
pub const NOISE_AT_PATTERN: &'static str = "^[A-Za-z]?@[A-Za-z0-9._]+$";

/// A short Latin fragment such as `abc:/`.
pub const NOISE_SHORT_PATTERN: &'static str = "^[A-Za-z]{1,5}:?/?$";

// ---------------------------------------------------------------------------
// Regular expressions (the `regex` crate)
// ---------------------------------------------------------------------------

/// What `Regex::new(pattern)?.replace_all(haystack, rep)` gives.
pub uninterp spec fn regex_replace_all(pattern: Seq<char>, haystack: Seq<char>, rep: Seq<char>) -> Seq<char>;

/// What `Regex::new(pattern)?.replace(haystack, rep)` gives (first match only).
pub uninterp spec fn regex_replace_first(pattern: Seq<char>, haystack: Seq<char>, rep: Seq<char>) -> Seq<char>;

/// The part of `haystack` before the first match of `pattern`, if any
/// (`Regex::find`, then the text up to `Match::start`).
pub uninterp spec fn regex_text_before_match(pattern: Seq<char>, haystack: Seq<char>) -> Option<Seq<char>>;

/// Whether `pattern` matches somewhere in `haystack` (`Regex::is_match`).
pub uninterp spec fn regex_is_match(pattern: Seq<char>, haystack: Seq<char>) -> bool;

/// Compiles `pattern` with `regex::Regex::new` and calls `Regex::replace_all`.
/// The result is named `regex_replace_all`; a pattern that does not compile
/// leaves the haystack as it is. A replacement without `$` is inserted
/// literally, so every character of the result comes from the haystack or
/// the replacement.
#[verifier::external_body]
fn replace_all_matches(pattern: &str, haystack: &Vec<char>, rep: &str) -> (r: Vec<char>)
    ensures
        r@ == regex_replace_all(pattern@, haystack@, rep@),
        !rep@.contains('$') ==> forall|i: int| 0 <= i < r@.len() ==> haystack@.contains(#[trigger] r@[i])
            || rep@.contains(r@[i]),
{
    let h: String = haystack.iter().collect();
    match regex::Regex::new(pattern) {
        Ok(re) => re.replace_all(&h, rep).chars().collect(),
        Err(_) => haystack.clone(),
    }
}

/// Compiles `pattern` with `regex::Regex::new` and calls `Regex::replace`.
/// The result is named `regex_replace_first`; a pattern that does not
/// compile leaves the haystack as it is. A replacement without `$` is
/// inserted literally, so every character of the result comes from the
/// haystack or the replacement.
#[verifier::external_body]
fn replace_first_match(pattern: &str, haystack: &Vec<char>, rep: &str) -> (r: Vec<char>)
    ensures
        r@ == regex_replace_first(pattern@, haystack@, rep@),
        !rep@.contains('$') ==> forall|i: int| 0 <= i < r@.len() ==> haystack@.contains(#[trigger] r@[i])
            || rep@.contains(r@[i]),
{
    let h: String = haystack.iter().collect();
    match regex::Regex::new(pattern) {
        Ok(re) => re.replace(&h, rep).chars().collect(),
        Err(_) => haystack.clone(),
    }
}

/// Compiles `pattern` with `regex::Regex::new` and calls `Regex::find`,
/// returning the text before the match. Named `regex_text_before_match`;
/// a match starts inside the haystack, so what comes back is a prefix of it.
/// A pattern that does not compile finds nothing.
#[verifier::external_body]
fn text_before_match(pattern: &str, haystack: &Vec<char>) -> (r: Option<Vec<char>>)
    ensures
        r matches Some(p) ==> regex_text_before_match(pattern@, haystack@) == Some(p@),
        r is None ==> regex_text_before_match(pattern@, haystack@) is None,
        r matches Some(p) ==> p@.is_prefix_of(haystack@),
{
    let h: String = haystack.iter().collect();
    match regex::Regex::new(pattern) {
        Ok(re) => match re.find(&h) {
            Some(m) => Some(h[..m.start()].chars().collect()),
            None => None,
        },
        Err(_) => None,
    }
}

/// Compiles `pattern` with `regex::Regex::new` and calls `Regex::is_match`.
/// Named `regex_is_match`; a pattern that does not compile matches nothing.
#[verifier::external_body]
fn matches(pattern: &str, haystack: &Vec<char>) -> (r: bool)
    ensures
        r == regex_is_match(pattern@, haystack@),
{
    let h: String = haystack.iter().collect();
    match regex::Regex::new(pattern) {
        Ok(re) => re.is_match(&h),
        Err(_) => false,
    }
}

// ---------------------------------------------------------------------------
// Specification
// ---------------------------------------------------------------------------

pub open spec fn is_category(t: Seq<char>) -> bool {
    strs_views(CATEGORY_TAGS@).contains(t)
}

/// Every character is an ASCII digit or a dot.
pub open spec fn digits_and_dots(t: Seq<char>) -> bool {
    forall|i: int| 0 <= i < t.len() ==> is_digit(t[i]) || t[i] == '.'
}

/// A token that is never part of a title: empty, a number, a date, a time,
/// an account handle or a short Latin fragment.
pub open spec fn noise_token(t: Seq<char>) -> bool {
    ||| t.len() == 0
    ||| digits_and_dots(t)
    ||| regex_is_match(NOISE_DATE_PATTERN@, t)
    ||| regex_is_match(NOISE_AMPM_PATTERN@, t)
    ||| (t.contains('@') && regex_is_match(NOISE_AT_PATTERN@, t))
    ||| regex_is_match(NOISE_SHORT_PATTERN@, t)
}

/// `s` cut off at each of the first `n` cut tokens in turn.
pub open spec fn cut_tokens(s: Seq<char>, n: nat) -> Seq<char>
    decreases n,
{
    if n == 0 || n > CUT_TOKENS@.len() {
        s
    } else {
        cut_at(cut_tokens(s, (n - 1) as nat), CUT_TOKENS@[n - 1]@)
    }
}

/// A title candidate cut at boilerplate and trimmed of punctuation.
pub open spec fn cleaned(s: Seq<char>) -> Seq<char> {
    trim_set(cut_tokens(s, CUT_TOKENS@.len()), CLEAN_TRIM_SET@)
}

/// The tokens of `ws` that are not noise, in order.
pub open spec fn kept_tokens(ws: Seq<Seq<char>>) -> Seq<Seq<char>>
    decreases ws.len(),
{
    if ws.len() == 0 {
        seq![]
    } else if noise_token(ws.last()) {
        kept_tokens(ws.drop_last())
    } else {
        kept_tokens(ws.drop_last()).push(ws.last())
    }
}

/// The title in free text: the non-noise words joined by spaces, cleaned.
pub open spec fn title_in_text(s: Seq<char>) -> Option<Seq<char>> {
    let ws = words(s);
    let candidate = trim(join(kept_tokens(ws), " "@));
    if ws.len() == 0 || candidate.len() == 0 {
        None
    } else {
        Some(cleaned(candidate))
    }
}

/// The first hashtag that is not a category and yields a non-empty title.
pub open spec fn title_in_tags(tags: Seq<Seq<char>>) -> Option<Seq<char>>
    decreases tags.len(),
{
    if tags.len() == 0 {
        None
    } else {
        let t = tags[0];
        if t.len() > 0 && !is_category(t) && (title_in_text(t) matches Some(c) && c.len() > 0) {
            title_in_text(t)
        } else {
            title_in_tags(tags.drop_first())
        }
    }
}

pub open spec fn trimmed_all(parts: Seq<Seq<char>>) -> Seq<Seq<char>> {
    parts.map_values(|p: Seq<char>| trim(p))
}

/// The title of text with hashtags: the text before the first `#` unless it
/// is a category, else the first usable hashtag, else the text before `#`.
pub open spec fn title_with_tags(s: Seq<char>) -> Option<Seq<char>> {
    let parts = split(s, '#');
    let before = trim(parts[0]);
    let tags = trimmed_all(parts.drop_first());
    if before.len() > 0 && !is_category(before) && cleaned(before).len() > 0 {
        Some(cleaned(before))
    } else if title_in_tags(tags) is Some {
        title_in_tags(tags)
    } else if before.len() > 0 && cleaned(before).len() > 0 {
        Some(cleaned(before))
    } else {
        None
    }
}

/// `s` with each of the first `n` share prefixes replaced by a space.
pub open spec fn without_prefixes(s: Seq<char>, n: nat) -> Seq<char>
    decreases n,
{
    if n == 0 || n > PREFIX_TOKENS@.len() {
        s
    } else {
        replace(without_prefixes(s, (n - 1) as nat), PREFIX_TOKENS@[n - 1]@, " "@)
    }
}

/// Share text with full-width marks folded, URLs, brackets, share
/// boilerplate and a leading episode number removed.
pub open spec fn normalized(text: Seq<char>) -> Seq<char> {
    let s = replace(replace(trim(text), "＃"@, "#"@), "："@, ":"@);
    let s = regex_replace_all(BRACKET_PATTERN@, regex_replace_all(URL_PATTERN@, s, ""@), " "@);
    let s = trim(without_prefixes(s, PREFIX_TOKENS@.len()));
    trim(regex_replace_first(LEADING_NUMBER_PATTERN@, s, ""@))
}

/// A title with its "极速" suffix split off, given the text before the
/// suffix when there is one: the fast edition when something is left.
pub open spec fn fast_split_of(t: Seq<char>, before: Option<Seq<char>>) -> (Seq<char>, bool) {
    match before {
        Some(p) if trim(p).len() > 0 => (trim(p), true),
        _ => (t, false),
    }
}

/// A title with its "极速" suffix split off, when something is left before it.
pub open spec fn split_fast(t: Seq<char>) -> (Seq<char>, bool) {
    fast_split_of(t, regex_text_before_match(FAST_SUFFIX_PATTERN@, t))
}

/// The title chosen in normalized text: by its tags when it holds a '#',
/// else by its words.
pub open spec fn normalized_title(s: Seq<char>) -> Option<Seq<char>> {
    if s.contains('#') {
        title_with_tags(s)
    } else {
        title_in_text(s)
    }
}

/// The parse of share text: a title and whether it is the fast edition.
pub open spec fn parsed(text: Seq<char>) -> Option<(Seq<char>, bool)> {
    if text.len() == 0 {
        None
    } else {
        let s = normalized(text);
        let candidate = normalized_title(s);
        if s.len() == 0 {
            None
        } else {
            match candidate {
                Some(t) if t.len() > 0 => Some(split_fast(t)),
                _ => None,
            }
        }
    }
}

// ---------------------------------------------------------------------------
// Implementation
// ---------------------------------------------------------------------------

/// A parsed title and whether it is the fast edition.
pub struct ParsedTitle {
    pub title: String,
    pub is_fast: bool,
}

fn has_char(s: &Vec<char>, c: char) -> (b: bool)
    ensures
        b == s@.contains(c),
{
    let mut k: usize = 0;
    while k < s.len()
        invariant
            k <= s.len(),
            forall|m: int| 0 <= m < k ==> s@[m] != c,
        decreases s.len() - k,
    {
        if s[k] == c {
            assert(s@[k as int] == c);
            return true;
        }
        k += 1;
    }
    false
}

fn is_noise(tok: &Vec<char>) -> (b: bool)
    ensures
        b == noise_token(tok@),
{
    if tok.len() == 0 {
        return true;
    }
    let mut all = true;
    let mut k: usize = 0;
    while k < tok.len()
        invariant
            k <= tok.len(),
            all == (forall|i: int| 0 <= i < k ==> is_digit(tok@[i]) || tok@[i] == '.'),
        decreases tok.len() - k,
    {
        let c = tok[k];
        if !(('0' <= c && c <= '9') || c == '.') {
            all = false;
        }
        k += 1;
    }
    if all {
        return true;
    }
    if matches(NOISE_DATE_PATTERN, tok) {
        return true;
    }
    if matches(NOISE_AMPM_PATTERN, tok) {
        return true;
    }
    if has_char(tok, '@') && matches(NOISE_AT_PATTERN, tok) {
        return true;
    }
    matches(NOISE_SHORT_PATTERN, tok)
}

fn clean(s: &Vec<char>) -> (r: Vec<char>)
    ensures
        r@ == cleaned(s@),
{
    let mut cur = subvec(s, 0, s.len());
    assert(cur@ =~= s@);
    let mut k: usize = 0;
    while k < CUT_TOKENS.len()
        invariant
            k <= CUT_TOKENS@.len(),
            cur@ == cut_tokens(s@, k as nat),
        decreases CUT_TOKENS@.len() - k,
    {
        let tok = chars_of(CUT_TOKENS[k]);
        assert(tok@ == CUT_TOKENS@[k as int]@);
        match find_chars(&cur, &tok) {
            Some(i) => {
                proof {
                    lemma_first_index(cur@, tok@, i);
                }
                assert(i <= cur.len());
                cur = subvec(&cur, 0, i);
            },
            None => {
                assert(!contains_seq(cur@, tok@));
            },
        }
        k += 1;
    }
    trim_set_chars(&cur, &chars_of(CLEAN_TRIM_SET))
}

/// The words of `ws` whose flag in `noise` is false, in order.
pub open spec fn kept_by(ws: Seq<Seq<char>>, noise: Seq<bool>) -> Seq<Seq<char>>
    decreases ws.len(),
{
    if ws.len() == 0 || noise.len() == 0 {
        seq![]
    } else if noise.last() {
        kept_by(ws.drop_last(), noise.drop_last())
    } else {
        kept_by(ws.drop_last(), noise.drop_last()).push(ws.last())
    }
}

/// The title in words of free text, given which words are noise: the
/// other words joined by spaces and cleaned; none when no word is left.
pub open spec fn title_of_words(ws: Seq<Seq<char>>, noise: Seq<bool>) -> Option<Seq<char>> {
    let candidate = trim(join(kept_by(ws, noise), " "@));
    if ws.len() == 0 || candidate.len() == 0 {
        None
    } else {
        Some(cleaned(candidate))
    }
}

proof fn lemma_kept_by_noise(ws: Seq<Seq<char>>, noise: Seq<bool>)
    requires
        ws.len() == noise.len(),
        forall|i: int| 0 <= i < ws.len() ==> noise[i] == noise_token(#[trigger] ws[i]),
    ensures
        kept_by(ws, noise) == kept_tokens(ws),
    decreases ws.len(),
{
    if ws.len() > 0 {
        assert forall|i: int| 0 <= i < ws.drop_last().len() implies noise.drop_last()[i] == noise_token(#[trigger] ws.drop_last()[i]) by {
            assert(ws.drop_last()[i] == ws[i]);
        };
        lemma_kept_by_noise(ws.drop_last(), noise.drop_last());
        assert(noise.last() == noise_token(ws[ws.len() - 1]));
    }
}

/// The title in the words of free text once each word's noise verdict is
/// known (the verdicts come from the noise patterns).
pub fn title_from_words(ws: &Vec<Vec<char>>, noise: &Vec<bool>) -> (r: Option<Vec<char>>)
    requires
        ws.len() == noise.len(),
    ensures
        match r {
            Some(t) => title_of_words(views(ws@), noise@) == Some(t@),
            None => title_of_words(views(ws@), noise@) is None,
        },
{
    if ws.len() == 0 {
        return None;
    }
    let ghost all = views(ws@);
    let mut kept: Vec<Vec<char>> = Vec::new();
    let mut k: usize = 0;
    assert(all.take(0) =~= Seq::<Seq<char>>::empty());
    assert(views(kept@) =~= Seq::<Seq<char>>::empty());
    while k < ws.len()
        invariant
            k <= ws.len(),
            ws.len() == noise.len(),
            all == views(ws@),
            views(kept@) == kept_by(all.take(k as int), noise@.take(k as int)),
        decreases ws.len() - k,
    {
        assert(all.take(k + 1).drop_last() =~= all.take(k as int));
        assert(noise@.take(k + 1).drop_last() =~= noise@.take(k as int));
        assert(all.take(k + 1).last() == ws@[k as int]@);
        let tok = subvec(&ws[k], 0, ws[k].len());
        assert(tok@ =~= ws@[k as int]@);
        if !noise[k] {
            assert(views(kept@.push(tok)) =~= views(kept@).push(tok@));
            kept.push(tok);
        }
        k += 1;
    }
    assert(all.take(k as int) =~= all);
    assert(noise@.take(k as int) =~= noise@);
    let candidate = trim_chars(&join_chars(&kept, &chars_of(" ")));
    if candidate.len() == 0 {
        return None;
    }
    Some(clean(&candidate))
}

/// The title in normalized text that holds no '#': the kept words of it,
/// joined, trimmed and cleaned, or the first word otherwise.
pub fn extract_from_text(s: &Vec<char>) -> (r: Option<Vec<char>>)
    ensures
        r matches Some(t) ==> title_in_text(s@) == Some(t@),
        r is None ==> title_in_text(s@) is None,
{
    let ws = split_whitespace(s);
    let mut noise: Vec<bool> = Vec::new();
    let mut k: usize = 0;
    while k < ws.len()
        invariant
            k <= ws.len(),
            noise@.len() == k,
            forall|i: int| 0 <= i < k ==> noise@[i] == noise_token(#[trigger] views(ws@)[i]),
        decreases ws.len() - k,
    {
        let tok = subvec(&ws[k], 0, ws[k].len());
        assert(tok@ =~= views(ws@)[k as int]);
        noise.push(is_noise(&tok));
        k += 1;
    }
    proof {
        lemma_kept_by_noise(views(ws@), noise@);
    }
    title_from_words(&ws, &noise)
}

/// The title in normalized text that holds a '#': the text before the first
/// '#' when it is no category tag, else the first tag that yields a title.
pub fn from_hashtag(s: &Vec<char>) -> (r: Option<Vec<char>>)
    ensures
        r matches Some(t) ==> title_with_tags(s@) == Some(t@),
        r is None ==> title_with_tags(s@) is None,
{
    let parts = split_char(s, '#');
    let ghost ps = views(parts@);
    assert(ps.len() > 0) by {
        crate::text::lemma_split_nonempty(s@, '#');
    };
    let before = trim_chars(&parts[0]);
    assert(before@ == trim(ps[0]));
    let before_is_category = in_list(&CATEGORY_TAGS, &before);
    if before.len() > 0 && !before_is_category {
        let cleaned = clean(&before);
        if cleaned.len() > 0 {
            return Some(cleaned);
        }
    }
    assert(!(before@.len() > 0 && !is_category(before@) && cleaned(before@).len() > 0));
    let ghost tags = trimmed_all(ps.drop_first());
    let mut k: usize = 1;
    assert(tags.skip(0) =~= tags);
    while k < parts.len()
        invariant
            1 <= k <= parts.len(),
            ps == views(parts@),
            ps == split(s@, '#'),
            tags == trimmed_all(ps.drop_first()),
            title_in_tags(tags) == title_in_tags(tags.skip(k - 1)),
            before@ == trim(ps[0]),
            !(before@.len() > 0 && !is_category(before@) && cleaned(before@).len() > 0),
        decreases parts.len() - k,
    {
        let tag = trim_chars(&parts[k]);
        assert(tag@ == tags.skip(k - 1)[0]);
        assert(tags.skip(k - 1).drop_first() =~= tags.skip(k as int));
        if tag.len() > 0 && !in_list(&CATEGORY_TAGS, &tag) {
            match extract_from_text(&tag) {
                Some(c) => {
                    if c.len() > 0 {
                        assert(title_in_tags(tags.skip(k - 1)) == title_in_text(tag@));
                        assert(title_in_tags(tags) == Some(c@));
                        return Some(c);
                    }
                },
                None => {},
            }
        }
        k += 1;
    }
    assert(tags.skip(k - 1).len() == 0);
    if before.len() > 0 {
        let cleaned = clean(&before);
        if cleaned.len() > 0 {
            return Some(cleaned);
        }
    }
    None
}

/// Share text trimmed, with full-width `＃` and `：` folded to `#` and `:`:
/// the first step of normalising, before the URL pattern is applied.
pub fn fold_marks(text: &Vec<char>) -> (r: Vec<char>)
    ensures
        r@ == replace(replace(trim(text@), "＃"@, "#"@), "："@, ":"@),
        avoids(r@, '＃'),
        avoids(r@, '：'),
        trim(text@).len() == 0 ==> r@.len() == 0,
{
    let ghost q1 = |x: char| x != '＃';
    let ghost q2 = |x: char| x != '：';
    proof {
        reveal_strlit("＃");
        reveal_strlit("#");
        reveal_strlit("：");
        reveal_strlit(":");
        assert("＃"@ =~= seq!['＃']);
        assert("："@ =~= seq!['：']);
        assert("#"@ =~= seq!['#']);
        assert(":"@ =~= seq![':']);
        assert(all_chars("#"@, q1) && all_chars(":"@, q1) && all_chars(":"@, q2));
    }
    let s0 = trim_chars(text);
    let s1 = replace_chars(&s0, &chars_of("＃"), &chars_of("#"));
    proof {
        lemma_replace_removes(s0@, '＃', "#"@, q1);
    }
    let s2 = replace_chars(&s1, &chars_of("："), &chars_of(":"));
    proof {
        lemma_replace_removes(s1@, '：', ":"@, q2);
        lemma_replace_all(s1@, "："@, ":"@, q1);
        lemma_avoids_all(s2@, '＃', q1);
        lemma_avoids_all(s2@, '：', q2);
        if s0@.len() == 0 {
            assert(s1@.len() == 0);
            assert(s2@.len() == 0);
        }
    }
    s2
}

/// Each share prefix replaced by a space, then trimmed: the step between
/// the bracket pattern and the leading-number pattern. Text made only of
/// spaces leaves nothing.
pub fn strip_share_prefixes(s: &Vec<char>) -> (r: Vec<char>)
    ensures
        r@ == trim(without_prefixes(s@, PREFIX_TOKENS@.len() as nat)),
        avoids(s@, '＃') ==> avoids(r@, '＃'),
        avoids(s@, '：') ==> avoids(r@, '：'),
        (forall|i: int| 0 <= i < s@.len() ==> s@[i] == ' ') ==> r@.len() == 0,
{
    let ghost q1 = |x: char| x != '＃';
    let ghost q2 = |x: char| x != '：';
    let ghost qs = |x: char| x == ' ';
    let ghost k1 = avoids(s@, '＃');
    let ghost k2 = avoids(s@, '：');
    let ghost ks = forall|i: int| 0 <= i < s@.len() ==> s@[i] == ' ';
    proof {
        reveal_strlit(" ");
        assert(" "@ =~= seq![' ']);
        lemma_avoids_all(s@, '＃', q1);
        lemma_avoids_all(s@, '：', q2);
        if ks {
            assert forall|i: int| 0 <= i < s@.len() implies #[trigger] qs(s@[i]) by {};
        }
    }
    let mut t = subvec(s, 0, s.len());
    assert(t@ =~= s@);
    let space = chars_of(" ");
    let mut k: usize = 0;
    while k < PREFIX_TOKENS.len()
        invariant
            k <= PREFIX_TOKENS@.len(),
            space@ == " "@,
            t@ == without_prefixes(s@, k as nat),
            all_chars(" "@, q1) && all_chars(" "@, q2) && all_chars(" "@, qs),
            k1 ==> all_chars(t@, q1),
            k2 ==> all_chars(t@, q2),
            ks ==> all_chars(t@, qs),
        decreases PREFIX_TOKENS@.len() - k,
    {
        let tok = chars_of(PREFIX_TOKENS[k]);
        assert(tok@ == PREFIX_TOKENS@[k as int]@);
        proof {
            if k1 {
                lemma_replace_all(t@, tok@, " "@, q1);
            }
            if k2 {
                lemma_replace_all(t@, tok@, " "@, q2);
            }
            if ks {
                lemma_replace_all(t@, tok@, " "@, qs);
            }
        }
        t = replace_chars(&t, &tok, &space);
        k += 1;
    }
    let r = trim_chars(&t);
    proof {
        if k1 {
            lemma_strip_all(t@, ws_pred(), q1);
            lemma_avoids_all(r@, '＃', q1);
        }
        if k2 {
            lemma_strip_all(t@, ws_pred(), q2);
            lemma_avoids_all(r@, '：', q2);
        }
        if ks {
            lemma_trim_blank(t@, qs);
        }
    }
    r
}

/// Share text normalized for title search: full-width '＃' and '：' made
/// ASCII, links and bracketed parts dropped, share prefixes and a leading
/// number taken off, and trimmed.
pub fn normalize(text: &Vec<char>) -> (r: Vec<char>)
    ensures
        r@ == normalized(text@),
        avoids(r@, '＃'),
        avoids(r@, '：'),
        trim(text@).len() == 0 ==> r@.len() == 0,
{
    let ghost q1 = |x: char| x != '＃';
    let ghost q2 = |x: char| x != '：';
    let ghost qs = |x: char| x == ' ';
    let ghost blank = trim(text@).len() == 0;
    proof {
        reveal_strlit(" ");
        reveal_strlit("");
        assert(" "@ =~= seq![' ']);
        assert(all_chars(" "@, q1) && all_chars(" "@, q2) && all_chars(" "@, qs));
        assert(all_chars(""@, q1) && all_chars(""@, q2) && all_chars(""@, qs));
        assert(!""@.contains('$') && !" "@.contains('$'));
    }
    let s2 = fold_marks(text);
    proof {
        lemma_avoids_all(s2@, '＃', q1);
        lemma_avoids_all(s2@, '：', q2);
    }
    let s3 = replace_all_matches(URL_PATTERN, &s2, "");
    proof {
        lemma_from_either(s3@, s2@, ""@, q1);
        lemma_from_either(s3@, s2@, ""@, q2);
        if blank && s3@.len() > 0 {
            assert(s2@.contains(s3@[0]) || ""@.contains(s3@[0]));
        }
    }
    let s = replace_all_matches(BRACKET_PATTERN, &s3, " ");
    proof {
        lemma_from_either(s@, s3@, " "@, q1);
        lemma_from_either(s@, s3@, " "@, q2);
        lemma_avoids_all(s@, '＃', q1);
        lemma_avoids_all(s@, '：', q2);
        if blank {
            assert(all_chars(s3@, qs));
            lemma_from_either(s@, s3@, " "@, qs);
            assert forall|i: int| 0 <= i < s@.len() implies s@[i] == ' ' by {
                assert(qs(s@[i]));
            };
        }
    }
    let s4 = strip_share_prefixes(&s);
    proof {
        lemma_avoids_all(s4@, '＃', q1);
        lemma_avoids_all(s4@, '：', q2);
    }
    let s5 = replace_first_match(LEADING_NUMBER_PATTERN, &s4, "");
    proof {
        lemma_from_either(s5@, s4@, ""@, q1);
        lemma_from_either(s5@, s4@, ""@, q2);
        if blank && s5@.len() > 0 {
            assert(s4@.contains(s5@[0]) || ""@.contains(s5@[0]));
        }
    }
    let r = trim_chars(&s5);
    proof {
        lemma_strip_all(s5@, ws_pred(), q1);
        lemma_strip_all(s5@, ws_pred(), q2);
        lemma_avoids_all(r@, '＃', q1);
        lemma_avoids_all(r@, '：', q2);
    }
    r
}

/// Splits the "极速" suffix off a title, given the text before the suffix
/// (found by the fast-suffix pattern) when there is one.
pub fn split_fast_title(title: Vec<char>, before: Option<Vec<char>>) -> (r: (Vec<char>, bool))
    ensures
        (r.0@, r.1) == fast_split_of(
            title@,
            match before {
                Some(p) => Some(p@),
                None => None,
            },
        ),
{
    match before {
        Some(prefix) => {
            let base = trim_chars(&prefix);
            if base.len() > 0 {
                (base, true)
            } else {
                (title, false)
            }
        },
        None => (title, false),
    }
}

/// The title chosen in already normalized text (see `normalize`), before
/// the "极速" suffix is split off.
pub fn title_of_normalized(s: &Vec<char>) -> (r: Option<Vec<char>>)
    ensures
        r matches Some(t) ==> normalized_title(s@) == Some(t@),
        r is None ==> normalized_title(s@) is None,
{
    if has_char(s, '#') {
        from_hashtag(s)
    } else {
        extract_from_text(s)
    }
}

/// The show title in Douyin share text, with the "极速" suffix split off.
/// `None` when no title can be found.
pub fn parse(text: &str) -> (r: Option<ParsedTitle>)
    ensures
        r matches Some(p) ==> parsed(text@) == Some((p.title@, p.is_fast)),
        r is None ==> parsed(text@) is None,
        trim(text@).len() == 0 ==> r is None,
        r matches Some(p) ==> p.title@.len() > 0 && avoids(p.title@, '#') && avoids(p.title@, '＃')
            && avoids(p.title@, '：'),
{
    let ghost qh = |x: char| x != '#';
    let ghost q1 = |x: char| x != '＃';
    let ghost q2 = |x: char| x != '：';
    let chars = chars_of(text);
    if chars.len() == 0 {
        return None;
    }
    let s = normalize(&chars);
    if s.len() == 0 {
        return None;
    }
    proof {
        lemma_avoids_all(s@, '＃', q1);
        lemma_avoids_all(s@, '：', q2);
        assert(qh(' ') && q1(' ') && q2(' '));
    }
    proof {
        if s@.contains('#') {
            lemma_title_with_tags_all(s@, qh);
            lemma_title_with_tags_all(s@, q1);
            lemma_title_with_tags_all(s@, q2);
        } else {
            lemma_avoids_all(s@, '#', qh);
            lemma_title_in_text_all(s@, qh);
            lemma_title_in_text_all(s@, q1);
            lemma_title_in_text_all(s@, q2);
        }
    }
    let candidate = title_of_normalized(&s);
    let title = match candidate {
        Some(t) => t,
        None => {
            return None;
        },
    };
    if title.len() == 0 {
        return None;
    }
    assert(all_chars(title@, qh) && all_chars(title@, q1) && all_chars(title@, q2));
    let before = text_before_match(FAST_SUFFIX_PATTERN, &title);
    proof {
        if before is Some {
            let p = before->0;
            assert(p@ =~= title@.take(p@.len() as int));
            lemma_all_chars_take(title@, qh, p@.len() as int);
            lemma_all_chars_take(title@, q1, p@.len() as int);
            lemma_all_chars_take(title@, q2, p@.len() as int);
            lemma_strip_all(p@, ws_pred(), qh);
            lemma_strip_all(p@, ws_pred(), q1);
            lemma_strip_all(p@, ws_pred(), q2);
        }
    }
    let (t, is_fast) = split_fast_title(title, before);
    proof {
        lemma_avoids_all(t@, '#', qh);
        lemma_avoids_all(t@, '＃', q1);
        lemma_avoids_all(t@, '：', q2);
    }
    Some(ParsedTitle { title: string_of(&t), is_fast })
}

/// A title found in share text is never empty.
pub proof fn lemma_parsed_title_nonempty(text: Seq<char>)
    ensures
        parsed(text) matches Some(p) ==> p.0.len() > 0,
{
}

// ---------------------------------------------------------------------------
// Which characters a title can hold
// ---------------------------------------------------------------------------

proof fn lemma_cut_tokens_all(s: Seq<char>, n: nat, q: spec_fn(char) -> bool)
    requires
        all_chars(s, q),
    ensures
        all_chars(cut_tokens(s, n), q),
    decreases n,
{
    if n > 0 && n <= CUT_TOKENS@.len() {
        lemma_cut_tokens_all(s, (n - 1) as nat, q);
        lemma_cut_at_all(cut_tokens(s, (n - 1) as nat), CUT_TOKENS@[n - 1]@, q);
    }
}

proof fn lemma_cleaned_all(s: Seq<char>, q: spec_fn(char) -> bool)
    requires
        all_chars(s, q),
    ensures
        all_chars(cleaned(s), q),
{
    lemma_cut_tokens_all(s, CUT_TOKENS@.len() as nat, q);
    lemma_strip_all(cut_tokens(s, CUT_TOKENS@.len() as nat), in_set_pred(CLEAN_TRIM_SET@), q);
}

proof fn lemma_kept_all(ws: Seq<Seq<char>>, q: spec_fn(char) -> bool)
    requires
        forall|k: int| 0 <= k < ws.len() ==> all_chars(#[trigger] ws[k], q),
    ensures
        forall|k: int| 0 <= k < kept_tokens(ws).len() ==> all_chars(#[trigger] kept_tokens(ws)[k], q),
    decreases ws.len(),
{
    if ws.len() > 0 {
        assert forall|k: int| 0 <= k < ws.drop_last().len() implies all_chars(#[trigger] ws.drop_last()[k], q) by {
            assert(ws.drop_last()[k] == ws[k]);
        };
        lemma_kept_all(ws.drop_last(), q);
        let t = kept_tokens(ws.drop_last());
        let r = kept_tokens(ws);
        assert(all_chars(ws[ws.len() - 1], q));
        assert forall|k: int| 0 <= k < r.len() implies all_chars(#[trigger] r[k], q) by {
            if k < t.len() {
                assert(r[k] == t[k]);
            } else {
                assert(r[k] == ws.last());
            }
        };
    }
}

/// A title found in free text holds only characters of the text and spaces.
proof fn lemma_title_in_text_all(s: Seq<char>, q: spec_fn(char) -> bool)
    requires
        all_chars(s, q),
        q(' '),
    ensures
        title_in_text(s) matches Some(t) ==> all_chars(t, q),
{
    lemma_words_all(s, seq![], q);
    lemma_kept_all(words(s), q);
    assert(all_chars(" "@, q)) by {
        reveal_strlit(" ");
        assert(" "@[0] == ' ');
    };
    lemma_join_all(kept_tokens(words(s)), " "@, q);
    lemma_strip_all(join(kept_tokens(words(s)), " "@), ws_pred(), q);
    lemma_cleaned_all(trim(join(kept_tokens(words(s)), " "@)), q);
}

proof fn lemma_title_in_tags_all(tags: Seq<Seq<char>>, q: spec_fn(char) -> bool)
    requires
        forall|k: int| 0 <= k < tags.len() ==> all_chars(#[trigger] tags[k], q),
        q(' '),
    ensures
        title_in_tags(tags) matches Some(t) ==> all_chars(t, q),
    decreases tags.len(),
{
    if tags.len() > 0 {
        assert(all_chars(tags[0], q));
        lemma_title_in_text_all(tags[0], q);
        assert forall|k: int| 0 <= k < tags.drop_first().len() implies all_chars(#[trigger] tags.drop_first()[k], q) by {
            assert(tags.drop_first()[k] == tags[k + 1]);
        };
        lemma_title_in_tags_all(tags.drop_first(), q);
    }
}

/// A title found in text with hashtags holds only characters of the text
/// other than `#`, and spaces.
proof fn lemma_title_with_tags_all(s: Seq<char>, q: spec_fn(char) -> bool)
    requires
        forall|i: int| 0 <= i < s.len() && s[i] != '#' ==> #[trigger] q(s[i]),
        q(' '),
    ensures
        title_with_tags(s) matches Some(t) ==> all_chars(t, q),
{
    let parts = split(s, '#');
    lemma_split_nonempty(s, '#');
    lemma_split_all(s, '#', seq![], q);
    assert(all_chars(parts[0], q));
    lemma_strip_all(parts[0], ws_pred(), q);
    lemma_cleaned_all(trim(parts[0]), q);
    let tags = trimmed_all(parts.drop_first());
    assert forall|k: int| 0 <= k < tags.len() implies all_chars(#[trigger] tags[k], q) by {
        assert(parts.drop_first()[k] == parts[k + 1]);
        assert(all_chars(parts[k + 1], q));
        lemma_strip_all(parts[k + 1], ws_pred(), q);
    };
    lemma_title_in_tags_all(tags, q);
}

/// Characters that come from one of two texts pass a test both pass.
proof fn lemma_from_either(r: Seq<char>, a: Seq<char>, b: Seq<char>, q: spec_fn(char) -> bool)
    requires
        forall|i: int| 0 <= i < r.len() ==> a.contains(#[trigger] r[i]) || b.contains(r[i]),
        all_chars(a, q),
        all_chars(b, q),
    ensures
        all_chars(r, q),
{
    assert forall|i: int| 0 <= i < r.len() implies #[trigger] q(r[i]) by {
        if a.contains(r[i]) {
            let j = choose|j: int| 0 <= j < a.len() && a[j] == r[i];
            assert(q(a[j]));
        } else {
            let j = choose|j: int| 0 <= j < b.len() && b[j] == r[i];
            assert(q(b[j]));
        }
    };
}

/// In text that holds a '#': when the text before the first '#', trimmed,
/// is no category tag and cleans to something, that cleaned text is the
/// title, whatever tags follow it.
pub proof fn lemma_title_before_tags(s: Seq<char>, i: int)
    requires
        0 <= i < s.len(),
        s[i] == '#',
        forall|j: int| 0 <= j < i ==> s[j] != '#',
        trim(s.take(i)).len() > 0,
        !is_category(trim(s.take(i))),
        cleaned(trim(s.take(i))).len() > 0,
    ensures
        normalized_title(s) == Some(cleaned(trim(s.take(i)))),
{
    lemma_split_first(s, '#', i);
    assert(s.contains('#'));
}

/// Share text whose normalized form has a usable title before its first
/// '#' parses to that title (with the "极速" suffix split off), whatever
/// tags follow it.
pub proof fn lemma_parse_title_before_tags(text: Seq<char>, i: int)
    requires
        text.len() > 0,
        0 <= i < normalized(text).len(),
        normalized(text)[i] == '#',
        forall|j: int| 0 <= j < i ==> normalized(text)[j] != '#',
        trim(normalized(text).take(i)).len() > 0,
        !is_category(trim(normalized(text).take(i))),
        cleaned(trim(normalized(text).take(i))).len() > 0,
    ensures
        parsed(text) == Some(split_fast(cleaned(trim(normalized(text).take(i))))),
{
    lemma_title_before_tags(normalized(text), i);
}

/// No word kept for a title is a date such as `05/14`, a time, a number,
/// an account handle or a short Latin fragment; every kept word is a word
/// of the text.
pub proof fn lemma_kept_words_not_noise(ws: Seq<Seq<char>>)
    ensures
        forall|k: int| 0 <= k < kept_tokens(ws).len() ==> {
            let t = #[trigger] kept_tokens(ws)[k];
            &&& t.len() > 0
            &&& !digits_and_dots(t)
            &&& !regex_is_match(NOISE_DATE_PATTERN@, t)
            &&& !regex_is_match(NOISE_AMPM_PATTERN@, t)
            &&& !(t.contains('@') && regex_is_match(NOISE_AT_PATTERN@, t))
            &&& !regex_is_match(NOISE_SHORT_PATTERN@, t)
            &&& ws.contains(t)
        },
    decreases ws.len(),
{
    if ws.len() > 0 {
        lemma_kept_words_not_noise(ws.drop_last());
        let t = kept_tokens(ws.drop_last());
        let r = kept_tokens(ws);
        assert forall|k: int| 0 <= k < r.len() implies ws.contains(#[trigger] r[k]) by {
            if k < t.len() {
                assert(r[k] == t[k]);
                let j = choose|j: int| 0 <= j < ws.drop_last().len() && ws.drop_last()[j] == t[k];
                assert(ws[j] == r[k]);
            } else {
                assert(r[k] == ws[ws.len() - 1]);
            }
        };
        assert forall|k: int| 0 <= k < r.len() && k < t.len() implies r[k] == t[k] by {};
    }
}

/// A date word such as `05/14` after the text changes nothing of the title
/// found in it.
pub proof fn lemma_date_word_dropped(s: Seq<char>, d: Seq<char>)
    requires
        d.len() > 0,
        forall|k: int| 0 <= k < d.len() ==> !is_ws(#[trigger] d[k]),
        regex_is_match(NOISE_DATE_PATTERN@, d),
    ensures
        title_in_text(s + seq![' '] + d) == title_in_text(s),
{
    lemma_words_append(s, d);
    let ws = words(s);
    assert(ws.push(d).drop_last() =~= ws);
    assert(ws.push(d).last() == d);
    if ws.len() == 0 {
        assert(kept_tokens(ws) =~= Seq::<Seq<char>>::empty());
    }
}

/// In text without '#', a date word such as `05/14` after the title is
/// never part of the title chosen.
pub proof fn lemma_date_word_not_in_title(s: Seq<char>, d: Seq<char>)
    requires
        !s.contains('#'),
        !d.contains('#'),
        d.len() > 0,
        forall|k: int| 0 <= k < d.len() ==> !is_ws(#[trigger] d[k]),
        regex_is_match(NOISE_DATE_PATTERN@, d),
    ensures
        normalized_title(s + seq![' '] + d) == normalized_title(s),
{
    lemma_date_word_dropped(s, d);
    let t = s + seq![' '] + d;
    if t.contains('#') {
        let j = choose|j: int| 0 <= j < t.len() && t[j] == '#';
        if j < s.len() {
            assert(s[j] == '#');
        } else if j == s.len() {
        } else {
            assert(d[j - s.len() - 1] == '#');
        }
    }
}

} // verus!
