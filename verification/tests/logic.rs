use kai_fan_le_helper::logic::{generate_name, generate_name_from, is_noise_clipboard, looks_like_douyin_share, SimpleRng};
use kai_fan_le_helper::logic::title::{
    extract_from_text, fold_marks, from_hashtag, normalize, parse, split_fast_title, strip_share_prefixes, title_from_words,
    title_of_normalized,
};

#[test]
fn noise_detects_paths() {
    assert!(is_noise_clipboard("C:\\Users\\a.txt"));
    assert!(is_noise_clipboard("\\\\server\\share"));
    assert!(is_noise_clipboard("file:///x"));
    assert!(is_noise_clipboard("photo.png"));
    assert!(!is_noise_clipboard("复制打开抖音，看看这个剧"));
}

#[test]
fn douyin_detection() {
    assert!(looks_like_douyin_share("复制此链接，打开抖音搜索"));
    assert!(!looks_like_douyin_share("普通文本"));
}

#[test]
fn name_generation_nonempty() {
    for _ in 0..20 {
        let n = generate_name();
        assert!(!n.is_empty());
    }
}

#[test]
fn plain_title() {
    let r = parse("3.5 满城风絮").unwrap();
    assert_eq!(r.title, "满城风絮");
    assert!(!r.is_fast);
}

#[test]
fn fast_suffix() {
    let r = parse("剧名 - 极速").unwrap();
    assert_eq!(r.title, "剧名");
    assert!(r.is_fast);
}

#[test]
fn hashtag_title() {
    let r = parse("婚后热恋 #短剧 #推荐").unwrap();
    assert_eq!(r.title, "婚后热恋");
}

#[test]
fn strips_url_and_prefix() {
    let r = parse("复制此链接，打开抖音搜索，直接观看视频 好剧推荐 https://v.douyin.com/xxx");
    if let Some(p) = r {
        assert!(!p.title.is_empty());
    }
}

#[test]
fn noise_edge_cases() {
    assert!(is_noise_clipboard(""));
    assert!(is_noise_clipboard("   \t\n"));
    assert!(is_noise_clipboard("FILE:abc"));
    assert!(is_noise_clipboard("d:/games"));
    assert!(is_noise_clipboard("/usr/bin"));
    assert!(!is_noise_clipboard("//comment"));
    assert!(is_noise_clipboard("REPORT.PDF"));
    assert!(!is_noise_clipboard("report.pdf is here"));
    assert!(!is_noise_clipboard("archive.unknownext"));
    assert!(!is_noise_clipboard("1:/x"));
}

#[test]
fn douyin_detection_is_case_insensitive() {
    assert!(looks_like_douyin_share("see V.DOUYIN.COM/abc"));
    assert!(!looks_like_douyin_share(""));
}

#[test]
fn seeded_generator_is_reproducible() {
    let mut a = SimpleRng::from_seed(42);
    let mut b = SimpleRng::from_seed(42);
    assert_eq!(a.next_u64(), b.next_u64());
    assert_eq!(generate_name_from(&mut a), generate_name_from(&mut b));
    // the seed is made odd: 42 and 43 start alike
    let mut c = SimpleRng::from_seed(43);
    let mut d = SimpleRng::from_seed(42);
    assert_eq!(c.next_u64(), d.next_u64());
}

#[test]
fn xorshift_first_draw_from_one() {
    // state 1: x ^= x >> 12 -> 1; x ^= x << 25 -> 0x2000001; x ^= x >> 27 -> 0x2000001
    let mut r = SimpleRng::from_seed(1);
    assert_eq!(r.next_u64(), 0x2000001u64.wrapping_mul(0x2545F4914F6CDD1D));
}

#[test]
fn next_usize_zero_and_range() {
    let mut r = SimpleRng::from_seed(7);
    assert_eq!(r.next_usize(0), 0);
    for _ in 0..50 {
        assert!(r.next_usize(10) < 10);
    }
}

#[test]
fn generated_name_has_surname_and_given_name() {
    let mut r = SimpleRng::from_seed(12345);
    for _ in 0..30 {
        let n = generate_name_from(&mut r);
        let count = n.chars().count();
        assert!(count == 2 || count == 3, "{}", n);
    }
}

#[test]
fn title_without_share_text_is_none() {
    assert!(parse("").is_none());
    assert!(parse("   ").is_none());
    assert!(parse("https://v.douyin.com/abc").is_none());
}

#[test]
fn title_from_second_hashtag_when_first_is_category() {
    let r = parse("短剧 #好看的剧").unwrap();
    assert_eq!(r.title, "好看的剧");
}

#[test]
fn title_fullwidth_hash_and_bracket() {
    let r = parse("【热播】逆袭人生 ＃短剧").unwrap();
    assert_eq!(r.title, "逆袭人生");
}

#[test]
fn fast_suffix_needs_a_title_before_it() {
    let r = parse("- 极速").unwrap();
    assert!(!r.is_fast);
}

#[test]
fn title_cut_at_boilerplate() {
    let r = parse("好剧 看看TA的视频").unwrap();
    assert_eq!(r.title, "好剧");
}

#[test]
fn titles_hold_no_marks() {
    for text in ["婚后热恋＃短剧＃推荐", "【热播】逆袭人生：第二部 #短剧", "3.5 满城风絮", "剧名 - 极速", "好剧 看看TA的视频"] {
        let p = parse(text).unwrap();
        assert!(!p.title.is_empty());
        assert!(!p.title.contains('#') && !p.title.contains('＃') && !p.title.contains('：'));
    }
    assert_eq!(parse("婚后热恋＃短剧＃推荐").unwrap().title, "婚后热恋");
    assert!(parse(" \t\n　").is_none());
    assert!(parse("\u{3000}").is_none());
}

fn cv(s: &str) -> Vec<char> {
    s.chars().collect()
}

#[test]
fn normalising_steps() {
    assert_eq!(fold_marks(&cv("  婚后＃短剧：甜 ")), cv("婚后#短剧:甜"));
    assert_eq!(fold_marks(&cv(" \t ")), cv(""));
    assert_eq!(strip_share_prefixes(&cv("   ")), cv(""));
    assert_eq!(strip_share_prefixes(&cv(" 好剧 ")), cv("好剧"));
}

#[test]
fn words_to_title() {
    let ws = vec![cv("3.5"), cv("满城"), cv("风絮"), cv("10:30am")];
    assert_eq!(title_from_words(&ws, &vec![true, false, false, true]), Some(cv("满城 风絮")));
    assert_eq!(title_from_words(&ws, &vec![true, true, true, true]), None);
    assert_eq!(title_from_words(&vec![], &vec![]), None);
}

#[test]
fn fast_suffix_split() {
    assert_eq!(split_fast_title(cv("剧名 - 极速"), Some(cv("剧名 "))), (cv("剧名"), true));
    assert_eq!(split_fast_title(cv(" - 极速"), Some(cv(" "))), (cv(" - 极速"), false));
    assert_eq!(split_fast_title(cv("剧名"), None), (cv("剧名"), false));
}

fn sv(v: Option<Vec<char>>) -> Option<String> {
    v.map(|t| t.into_iter().collect())
}

#[test]
fn normalized_title_choice() {
    assert_eq!(sv(title_of_normalized(&cv("短剧 #好看的剧"))), Some("好看的剧".to_string()));
    assert_eq!(sv(title_of_normalized(&cv("婚后热恋 #短剧 #推荐"))), Some("婚后热恋".to_string()));
    assert_eq!(sv(title_of_normalized(&cv("满城风絮 12"))), Some("满城风絮".to_string()));
    assert_eq!(sv(title_of_normalized(&cv("好剧 看看TA的视频"))), Some("好剧".to_string()));
    assert_eq!(sv(title_of_normalized(&cv(""))), None);
    assert_eq!(sv(title_of_normalized(&cv("#短剧"))), None);
    assert_eq!(sv(from_hashtag(&cv("短剧 #逆袭人生"))), Some("逆袭人生".to_string()));
    assert_eq!(sv(extract_from_text(&cv("12 34.5"))), None);
}

#[test]
fn normalize_folds_and_strips() {
    let n: String = normalize(&cv("【热播】逆袭人生 ＃短剧")).into_iter().collect();
    assert_eq!(n, "逆袭人生 #短剧");
    let n: String = normalize(&cv("3.5 满城风絮")).into_iter().collect();
    assert_eq!(n, "满城风絮");
}
