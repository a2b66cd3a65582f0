//! Clipboard filtering and random name generation: pure logic with no
//! operating-system dependency.

pub mod net;
pub mod session;
pub mod title;

use vstd::prelude::*;
use crate::text::{
    append_all, ascii_lower_all, chars_of, contains_chars, contains_seq, eq_chars, in_list,
    is_ws, last_index_of, lowercase, rfind_char, starts_with_chars, string_of, strs_views, subvec,
    to_ascii_lowercase, to_lowercase, trim, trim_chars, lemma_trim_unchanged,
};

verus! {

/// Phrases that Douyin puts into shared text.
pub const DOUYIN_HINTS: [&'static str; 10] = [
    "v.douyin.com", "douyin.com", "iesdouyin.com", "复制打开抖音",
    "复制此链接，打开dou音", "复制此链接，打开抖音", "打开dou音搜索", "打开抖音搜索",
    "抖音搜索", "dou音搜索",
];

/// Whether `text` looks like a Douyin share: non-empty, and its lower case
/// holds the lower case of one of the hints.
pub open spec fn douyin_like(text: Seq<char>) -> bool {
    text.len() > 0 && exists|i: int|
        0 <= i < DOUYIN_HINTS@.len() && #[trigger] contains_seq(
            lowercase(text),
            lowercase(DOUYIN_HINTS@[i]@),
        )
}

/// Whether `text` looks like shared Douyin content.
pub fn looks_like_douyin_share(text: &str) -> (b: bool)
    ensures
        b == douyin_like(text@),
{
    let chars = chars_of(text);
    if chars.len() == 0 {
        return false;
    }
    let lower = to_lowercase(&chars);
    let mut k: usize = 0;
    while k < DOUYIN_HINTS.len()
        invariant
            k <= DOUYIN_HINTS@.len(),
            lower@ == lowercase(text@),
            text@.len() > 0,
            forall|i: int|
                0 <= i < k ==> !#[trigger] contains_seq(lowercase(text@), lowercase(DOUYIN_HINTS@[i]@)),
        decreases DOUYIN_HINTS@.len() - k,
    {
        let h = DOUYIN_HINTS[k];
        assert(h == DOUYIN_HINTS@[k as int]);
        let hint = to_lowercase(&chars_of(h));
        if contains_chars(&lower, &hint) {
            assert(contains_seq(lowercase(text@), lowercase(DOUYIN_HINTS@[k as int]@)));
            assert(text@.len() > 0);
            assert(0 <= k < DOUYIN_HINTS@.len());
            return true;
        }
        k += 1;
    }
    false
}

/// File extensions that mark clipboard text as a file name.
pub const FILE_EXTS: [&'static str; 70] = [
    "apk", "exe", "zip", "rar", "7z", "tar", "gz", "bz2", "xz", "png",
    "jpg", "jpeg", "gif", "bmp", "webp", "svg", "ico", "mp4", "avi", "mov",
    "mkv", "flv", "wmv", "webm", "mp3", "wav", "flac", "aac", "ogg", "m4a",
    "txt", "doc", "docx", "xls", "xlsx", "ppt", "pptx", "pdf", "py", "js",
    "ts", "java", "cpp", "c", "h", "hpp", "cs", "go", "rs", "rb",
    "php", "json", "xml", "yaml", "yml", "toml", "ini", "cfg", "conf", "log",
    "md", "html", "htm", "css", "scss", "less", "sql", "sh", "bat", "ps1",
];

/// The text after the last `.` of `s`, in ASCII lower case, is one of the
/// known file extensions.
pub open spec fn has_file_extension(s: Seq<char>) -> bool {
    exists|i: usize|
        #![trigger last_index_of(s, '.', Some(i))]
        last_index_of(s, '.', Some(i)) && strs_views(FILE_EXTS@).contains(
            ascii_lower_all(s.skip(i + 1)),
        )
}

fn has_file_ext(s: &Vec<char>) -> (b: bool)
    ensures
        b == has_file_extension(s@),
{
    match rfind_char(s, '.') {
        Some(i) => {
            assert(i < s.len());
            let ext = to_ascii_lowercase(&subvec(s, i + 1, s.len()));
            assert(s@.subrange(i + 1, s@.len() as int) =~= s@.skip(i + 1));
            let b = in_list(&FILE_EXTS, &ext);
            proof {
                assert forall|j: usize| last_index_of(s@, '.', Some(j)) implies j == i by {
                    if j < i {
                        assert(s@[i as int] == '.');
                    } else if j > i {
                        assert(s@[j as int] == '.');
                    }
                };
            }
            b
        },
        None => false,
    }
}

/// `c` is an ASCII letter.
pub open spec fn is_ascii_alpha(c: char) -> bool {
    ('a' <= c && c <= 'z') || ('A' <= c && c <= 'Z')
}

/// A drive path such as `C:\` or `C:/`.
pub open spec fn is_drive_path(s: Seq<char>) -> bool {
    s.len() >= 3 && is_ascii_alpha(s[0]) && s[1] == ':' && (s[2] == '\\' || s[2] == '/')
}

/// Clipboard noise: after trimming, the text is empty, a `file:` URL, a
/// drive, UNC or absolute path, or a single word ending in a file extension.
pub open spec fn noise(text: Seq<char>) -> bool {
    let s = trim(text);
    ||| s.len() == 0
    ||| "file:"@.is_prefix_of(lowercase(s))
    ||| is_drive_path(s)
    ||| "\\\\"@.is_prefix_of(s)
    ||| ("/"@.is_prefix_of(s) && !"//"@.is_prefix_of(s))
    ||| (!s.contains(' ') && !s.contains('\n') && has_file_extension(s))
}

fn has_char(s: &Vec<char>, c: char) -> (b: bool)
    ensures
        b == s@.contains(c),
{
    let mut k: usize = 0;
    while k < s.len()
        invariant
            k <= s.len(),
            forall|m: int| 0 <= m < k ==> s@[m] != c,
        decreases s.len() - k,
    {
        if s[k] == c {
            assert(s@[k as int] == c);
            return true;
        }
        k += 1;
    }
    false
}

/// Whether clipboard text is noise (a path or file name) rather than
/// something worth acting on.
pub fn is_noise_clipboard(text: &str) -> (b: bool)
    ensures
        b == noise(text@),
{
    let s = trim_chars(&chars_of(text));
    if s.len() == 0 {
        return true;
    }
    let lower = to_lowercase(&s);
    if starts_with_chars(&lower, &chars_of("file:")) {
        return true;
    }
    if s.len() >= 3 && (('a' <= s[0] && s[0] <= 'z') || ('A' <= s[0] && s[0] <= 'Z')) && s[1] == ':'
        && (s[2] == '\\' || s[2] == '/') {
        return true;
    }
    if starts_with_chars(&s, &chars_of("\\\\")) {
        return true;
    }
    if starts_with_chars(&s, &chars_of("/")) && !starts_with_chars(&s, &chars_of("//")) {
        return true;
    }
    if !has_char(&s, ' ') && !has_char(&s, '\n') && has_file_ext(&s) {
        return true;
    }
    false
}

/// Surnames, repeated by how common they are.
pub const SURNAME_POOL: &'static str = "王王王王王王王李李李李李李李张张张张张张张刘刘刘刘刘陈陈陈陈陈杨杨杨黄黄黄赵赵吴吴周周徐徐孙孙马马朱朱胡胡郭郭何何高高林林罗罗郑梁谢宋唐许韩冯邓曹彭曾肖田董袁潘于蒋蔡余杜叶程苏魏吕丁任沈姚卢姜崔钟谭陆汪范金石廖贾夏韦傅方白邹孟熊秦邱江尹薛闫段雷侯龙史陶黎贺顾毛郝龚邵";

/// Two-character given names for boys.
pub const MALE_NAMES: [&'static str; 48] = [
    "宇轩", "浩宇", "子轩", "浩然", "俊杰", "宇航", "沐辰", "奕辰", "子墨", "泽宇",
    "一鸣", "天佑", "明轩", "睿轩", "昱辰", "昊然", "承泽", "思远", "梓豪", "睿泽",
    "俊熙", "铭泽", "皓轩", "星辰", "锦程", "亦辰", "亦泽", "书豪", "柏宇", "博文",
    "梓轩", "昊宇", "嘉豪", "子豪", "俊宇", "逸辰", "泽楷", "予安", "予泽", "景行",
    "致远", "锦泽", "沐阳", "宇宸", "瑞霖", "泽睿", "皓宇", "思齐",
];

/// Two-character given names for girls.
pub const FEMALE_NAMES: [&'static str; 48] = [
    "欣怡", "梓涵", "诗涵", "雨桐", "语汐", "若曦", "可馨", "思彤", "嘉怡", "梦琪",
    "紫萱", "依诺", "一诺", "芷晴", "悦涵", "语桐", "诗琪", "晨曦", "若彤", "梦瑶",
    "佳怡", "雨欣", "诗蕊", "语嫣", "晓彤", "语晨", "恬欣", "依涵", "梓萱", "若涵",
    "汐月", "悦昕", "语诺", "沐妍", "书瑶", "婉清", "楚涵", "思妍", "瑾萱", "语乔",
    "思琪", "可欣", "雅涵", "雨萱", "诗妍", "语昕", "念安", "知微",
];

/// One-character given names.
pub const SINGLE_GIVEN: [&'static str; 40] = [
    "伟", "芳", "娜", "敏", "静", "丽", "强", "磊", "军", "洋", "勇", "艳", "杰", "娟", "涛",
    "明", "超", "霞", "平", "刚", "华", "文", "玉", "建", "国", "志", "海", "峰", "鹏", "浩",
    "宇", "轩", "涵", "欣", "怡", "佳", "琪", "诺", "宸", "泽",
];

/// A draw below this (out of 2^53) picks a two-character given name: it
/// is the comparison `draw / 2^53 < 0.85` done exactly in integers.
pub const TWO_CHAR_BELOW: u64 = 7656119366529843;

/// A draw below this (out of 2^53) picks the boys' pool: `draw / 2^53 < 0.5`.
pub const MALE_BELOW: u64 = 4503599627370496;

proof fn lemma_surname_pool_len()
    ensures
        SURNAME_POOL@.len() > 0,
{
    reveal_strlit("王王王王王王王李李李李李李李张张张张张张张刘刘刘刘刘陈陈陈陈陈杨杨杨黄黄黄赵赵吴吴周周徐徐孙孙马马朱朱胡胡郭郭何何高高林林罗罗郑梁谢宋唐许韩冯邓曹彭曾肖田董袁潘于蒋蔡余杜叶程苏魏吕丁任沈姚卢姜崔钟谭陆汪范金石廖贾夏韦傅方白邹孟熊秦邱江尹薛闫段雷侯龙史陶黎贺顾毛郝龚邵");
}

/// The xorshift64* state transition.
pub open spec fn xorshift(x: u64) -> u64 {
    let a = x ^ (x >> 12u64);
    let b = a ^ (a << 25u64);
    b ^ (b >> 27u64)
}

/// The output drawn from a freshly advanced state.
pub open spec fn scramble(x: u64) -> u64 {
    x.wrapping_mul(0x2545F4914F6CDD1Du64)
}

/// The value drawn from state `s` (the state then advances to `xorshift(s)`).
pub open spec fn draw(s: u64) -> u64 {
    scramble(xorshift(s))
}

/// The state after `n` draws from `s`.
pub open spec fn advance(s: u64, n: nat) -> u64
    decreases n,
{
    if n == 0 {
        s
    } else {
        advance(xorshift(s), (n - 1) as nat)
    }
}

/// A small reproducible pseudo-random generator (xorshift64*).
pub struct SimpleRng {
    state: u64,
}

impl View for SimpleRng {
    type V = u64;

    closed spec fn view(&self) -> u64 {
        self.state
    }
}

impl SimpleRng {
    /// A generator started from `seed` (made odd so that it never sticks at zero).
    pub fn from_seed(seed: u64) -> (r: Self)
        ensures
            r@ == seed | 1u64,
    {
        SimpleRng { state: seed | 1 }
    }

    /// A generator seeded from the clock.
    pub fn from_time() -> (r: Self)
        ensures
            exists|seed: u64| r@ == seed | 1u64,
    {
        SimpleRng::from_seed(clock_seed())
    }

    pub fn next_u64(&mut self) -> (r: u64)
        ensures
            final(self)@ == xorshift(old(self)@),
            r == scramble(final(self)@),
    {
        let mut x = self.state;
        x ^= x >> 12;
        x ^= x << 25;
        x ^= x >> 27;
        self.state = x;
        x.wrapping_mul(0x2545F4914F6CDD1D)
    }

    /// A draw reduced modulo `n`; 0 without drawing when `n` is 0.
    pub fn next_usize(&mut self, n: usize) -> (r: usize)
        ensures
            n == 0 ==> r == 0 && final(self)@ == old(self)@,
            n > 0 ==> final(self)@ == xorshift(old(self)@) && r == draw(old(self)@) % (n as u64)
                && r < n,
    {
        if n == 0 {
            return 0;
        }
        (self.next_u64() % n as u64) as usize
    }
}

/// Nanoseconds of the system clock since the Unix epoch (`SystemTime::now`),
/// or a fixed odd constant when the clock is before the epoch.
#[verifier::external_body]
fn clock_seed() -> u64 {
    std::time::SystemTime::now()
        .duration_since(std::time::UNIX_EPOCH)
        .map(|d| d.as_nanos() as u64)
        .unwrap_or(0x9E3779B97F4A7C15)
}

/// The given-name pool chosen by a draw.
pub open spec fn given_pool(two_char: bool, male: bool) -> Seq<&'static str> {
    if !two_char {
        SINGLE_GIVEN@
    } else if male {
        MALE_NAMES@
    } else {
        FEMALE_NAMES@
    }
}

/// The name drawn from state `s`: one surname character, then a given name
/// from the pool that the next one or two draws select.
pub open spec fn name_from(s: u64) -> Seq<char> {
    let surname = SURNAME_POOL@[draw(s) as int % SURNAME_POOL@.len() as int];
    let s1 = advance(s, 1);
    let two_char = (draw(s1) >> 11u64) < TWO_CHAR_BELOW;
    let s2 = advance(s, 2);
    if two_char {
        let male = (draw(s2) >> 11u64) < MALE_BELOW;
        let s3 = advance(s, 3);
        let pool = given_pool(true, male);
        seq![surname] + pool[draw(s3) as int % pool.len() as int]@
    } else {
        let pool = given_pool(false, false);
        seq![surname] + pool[draw(s2) as int % pool.len() as int]@
    }
}

/// How many draws `name_from(s)` uses.
pub open spec fn name_draws(s: u64) -> nat {
    if (draw(advance(s, 1)) >> 11u64) < TWO_CHAR_BELOW {
        4
    } else {
        3
    }
}

/// A name drawn from `rng`.
pub fn generate_name_from(rng: &mut SimpleRng) -> (name: String)
    ensures
        name@ == name_from(old(rng)@),
        final(rng)@ == advance(old(rng)@, name_draws(old(rng)@)),
{
    let ghost s = rng@;
    let surnames = chars_of(SURNAME_POOL);
    proof {
        lemma_surname_pool_len();
        reveal_with_fuel(advance, 5);
        assert(advance(s, 1) == xorshift(s));
        assert(advance(s, 2) == xorshift(xorshift(s))) by {
            assert(advance(xorshift(s), 1) == xorshift(xorshift(s)));
        };
        assert(advance(s, 3) == xorshift(xorshift(xorshift(s)))) by {
            assert(advance(xorshift(xorshift(s)), 1) == xorshift(xorshift(xorshift(s))));
            assert(advance(xorshift(s), 2) == advance(xorshift(xorshift(s)), 1));
        };
        assert(advance(s, 4) == xorshift(xorshift(xorshift(xorshift(s))))) by {
            let s3 = xorshift(xorshift(xorshift(s)));
            assert(advance(s3, 1) == xorshift(s3));
            assert(advance(xorshift(xorshift(s)), 2) == advance(s3, 1));
            assert(advance(xorshift(s), 3) == advance(xorshift(xorshift(s)), 2));
        };
    }
    let surname = surnames[rng.next_usize(surnames.len())];
    let two_char = (rng.next_u64() >> 11) < TWO_CHAR_BELOW;
    let given = if two_char {
        let male = (rng.next_u64() >> 11) < MALE_BELOW;
        if male {
            MALE_NAMES[rng.next_usize(MALE_NAMES.len())]
        } else {
            FEMALE_NAMES[rng.next_usize(FEMALE_NAMES.len())]
        }
    } else {
        SINGLE_GIVEN[rng.next_usize(SINGLE_GIVEN.len())]
    };
    let mut out: Vec<char> = Vec::new();
    out.push(surname);
    append_all(&mut out, &chars_of(given));
    string_of(&out)
}

/// A random Chinese name: a surname followed by a given name.
pub fn generate_name() -> (name: String)
    ensures
        exists|s: u64| name@ == name_from(s),
{
    let mut rng = SimpleRng::from_time();
    generate_name_from(&mut rng)
}

/// Every drawn name starts with a surname from the pool, so it is never empty.
pub proof fn lemma_name_nonempty(s: u64)
    ensures
        name_from(s).len() >= 1,
        SURNAME_POOL@.contains(name_from(s)[0]),
{
    lemma_surname_pool_len();
    let i = draw(s) as int % SURNAME_POOL@.len() as int;
    assert(name_from(s)[0] == SURNAME_POOL@[i]);
}

/// Every hint counts: non-empty text whose lower case holds the lower case
/// of any one of `DOUYIN_HINTS` is taken for a Douyin share.
pub proof fn lemma_each_hint_recognised(text: Seq<char>, i: int)
    requires
        text.len() > 0,
        0 <= i < DOUYIN_HINTS@.len(),
        contains_seq(lowercase(text), lowercase(DOUYIN_HINTS@[i]@)),
    ensures
        douyin_like(text),
{
}

/// Text that holds the share hint "复制此链接，打开抖音" (in any case) is taken
/// for a Douyin share.
pub proof fn lemma_copy_link_hint_recognised(text: Seq<char>)
    requires
        text.len() > 0,
        contains_seq(lowercase(text), lowercase("复制此链接，打开抖音"@)),
    ensures
        douyin_like(text),
{
    assert(DOUYIN_HINTS@[5] == "复制此链接，打开抖音");
    lemma_each_hint_recognised(text, 5);
}

/// A single word (no white space in it) whose text after its last '.' is,
/// in ASCII lower case, a known file extension is clipboard noise, however
/// many dots come before: "backup.tar.gz" is a file name.
pub proof fn lemma_file_name_is_noise(stem: Seq<char>, ext: Seq<char>)
    requires
        !ext.contains('.'),
        strs_views(FILE_EXTS@).contains(ascii_lower_all(ext)),
        forall|k: int| 0 <= k < (stem + seq!['.'] + ext).len() ==> !is_ws(#[trigger] (stem + seq!['.'] + ext)[k]),
        (stem + seq!['.'] + ext).len() <= usize::MAX,
    ensures
        noise(stem + seq!['.'] + ext),
{
    let w = stem + seq!['.'] + ext;
    assert(!is_ws(w[0]) && !is_ws(w.last()));
    lemma_trim_unchanged(w);
    assert(is_ws(' ') && is_ws('\n'));
    assert(!w.contains(' ') && !w.contains('\n'));
    let i = stem.len() as usize;
    assert(w[i as int] == '.');
    assert forall|j: int| i < j < w.len() implies w[j] != '.' by {
        assert(w[j] == ext[j - i - 1]);
    };
    assert(w.skip(i + 1) =~= ext);
    assert(last_index_of(w, '.', Some(i)));
}

} // verus!
