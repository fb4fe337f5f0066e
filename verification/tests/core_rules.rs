use media_elo::layout::{centered_rect, Rect};
use media_elo::model::{
    get_k, is_rankable, match_k, status_at, status_rank, Row, STATUS_BACKLOG, STATUS_COUNT,
    STATUS_DONE, STATUS_DROPPED, STATUS_IN_PROGRESS, STATUS_ON_HOLD,
};
use media_elo::text::{
    char_count, contains_chars, eq_ignore_ascii_case, lex_less, lower_chars, parse_u32,
    trim_string, trim_trailing, truncate,
};

fn elo_key(x: f64) -> u64 {
    let x = if x == 0.0 { 0.0 } else { x };
    let bits = x.to_bits();
    if bits >> 63 == 1 {
        !bits
    } else {
        bits | (1u64 << 63)
    }
}

fn row(id: u128, type_: &str, title: &str, elo: f64, matches: u32, status: &str) -> Row {
    Row {
        id,
        type_: type_.to_string(),
        title: title.to_string(),
        elo: elo_key(elo),
        matches,
        status: status.to_string(),
        date_added: "2024-01-01".to_string(),
    }
}

#[test]
fn rankable_statuses_are_done_and_dropped() {
    assert!(is_rankable("done"));
    assert!(is_rankable("dropped"));
    assert!(!is_rankable("backlog"));
    assert!(!is_rankable("in progress"));
    assert!(!is_rankable("on hold"));
    assert!(!is_rankable("Done"));
    assert!(!is_rankable(""));
}

#[test]
fn status_list_order() {
    assert_eq!(STATUS_COUNT, 5);
    assert_eq!(status_at(0), STATUS_BACKLOG);
    assert_eq!(status_at(1), STATUS_IN_PROGRESS);
    assert_eq!(status_at(2), STATUS_ON_HOLD);
    assert_eq!(status_at(3), STATUS_DONE);
    assert_eq!(status_at(4), STATUS_DROPPED);
    assert_eq!(status_rank("backlog"), 0);
    assert_eq!(status_rank("dropped"), 4);
    assert_eq!(status_rank("pending"), 5);
}

#[test]
fn k_factor_steps() {
    assert_eq!(get_k(0), 32);
    assert_eq!(get_k(9), 32);
    assert_eq!(get_k(10), 24);
    assert_eq!(get_k(29), 24);
    assert_eq!(get_k(30), 16);
    assert_eq!(get_k(u32::MAX), 16);
}

#[test]
fn k_factor_never_grows() {
    let mut prev = get_k(0);
    for m in 0..100u32 {
        let k = get_k(m);
        assert!(k <= prev);
        prev = k;
    }
}

#[test]
fn match_k_is_mean_of_both() {
    assert_eq!(match_k(0, 0), 32);
    assert_eq!(match_k(0, 10), 28);
    assert_eq!(match_k(10, 30), 20);
    assert_eq!(match_k(40, 50), 16);
    assert_eq!(match_k(5, 35), 24);
}

#[test]
fn elo_keys_keep_numeric_order() {
    let vals = [-20.5f64, -1.0, 0.0, 0.25, 1200.0, 1500.0, 1500.01, 2400.0];
    for w in vals.windows(2) {
        assert!(elo_key(w[0]) < elo_key(w[1]));
    }
    assert_eq!(elo_key(1500.0), media_elo::server::BASE_ELO_KEY);
    assert_eq!(elo_key(-0.0), elo_key(0.0));
}

#[test]
fn duplicate_copies_every_field() {
    let r = row(7, "Book", "Dune", 1510.5, 3, "done");
    let d = r.duplicate();
    assert_eq!(d.id, 7);
    assert_eq!(d.type_, "Book");
    assert_eq!(d.title, "Dune");
    assert_eq!(d.elo, r.elo);
    assert_eq!(d.matches, 3);
    assert_eq!(d.status, "done");
    assert_eq!(d.date_added, "2024-01-01");
}

#[test]
fn truncate_short_text_unchanged() {
    assert_eq!(truncate("hello", 5), "hello");
    assert_eq!(truncate("hello", 10), "hello");
    assert_eq!(truncate("", 0), "");
}

#[test]
fn truncate_long_text_ends_in_ellipsis() {
    assert_eq!(truncate("hello world", 5), "hell\u{2026}");
    assert_eq!(truncate("abc", 1), "\u{2026}");
    assert_eq!(truncate("abc", 0), "\u{2026}");
    assert_eq!(truncate("héllo wörld", 4), "hél\u{2026}");
}

#[test]
fn parse_u32_reads_decimal() {
    assert_eq!(parse_u32("0"), Some(0));
    assert_eq!(parse_u32("42"), Some(42));
    assert_eq!(parse_u32("+7"), Some(7));
    assert_eq!(parse_u32("007"), Some(7));
    assert_eq!(parse_u32("4294967295"), Some(u32::MAX));
}

#[test]
fn parse_u32_rejects_what_from_str_rejects() {
    for s in ["", "+", "-1", "4294967296", "12a", " 1", "1.0", "99999999999"] {
        assert_eq!(parse_u32(s), None, "{s}");
        assert_eq!(s.parse::<u32>().ok(), None);
    }
}

#[test]
fn parse_u32_agrees_with_std() {
    for s in ["1", "10", "+100", "0000", "123456789", "4000000000"] {
        assert_eq!(parse_u32(s), s.parse::<u32>().ok());
    }
}

#[test]
fn trim_removes_unicode_whitespace_at_both_ends() {
    assert_eq!(trim_string("  Book \t\n"), "Book");
    assert_eq!(trim_string("\u{3000}Manga\u{a0}"), "Manga");
    assert_eq!(trim_string("   "), "");
    assert_eq!(trim_string("Visual Novel"), "Visual Novel");
    for s in ["  a b  ", "\u{2003}x\u{2028}", "", "\t"] {
        assert_eq!(trim_string(s), s.trim());
    }
}

#[test]
fn char_count_counts_chars() {
    assert_eq!(char_count(""), 0);
    assert_eq!(char_count("abc"), 3);
    assert_eq!(char_count("日本語"), 3);
}

#[test]
fn lowercase_folds_unicode() {
    assert_eq!(lower_chars("ÀBC"), vec!['à', 'b', 'c']);
    assert_eq!(lower_chars("abc"), vec!['a', 'b', 'c']);
}

#[test]
fn contains_finds_substrings() {
    let hay: Vec<char> = "the lord of the rings".chars().collect();
    assert!(contains_chars(&hay, &"lord".chars().collect()));
    assert!(contains_chars(&hay, &Vec::new()));
    assert!(!contains_chars(&hay, &"ring s".chars().collect()));
    assert!(!contains_chars(&Vec::new(), &"a".chars().collect()));
}

#[test]
fn lex_less_is_string_order() {
    let pairs = [("a", "b"), ("ab", "abc"), ("abc", "abd"), ("", "a"), ("b", "a"), ("a", "a")];
    for (a, b) in pairs {
        let va: Vec<char> = a.chars().collect();
        let vb: Vec<char> = b.chars().collect();
        assert_eq!(lex_less(&va, &vb), a < b, "{a} {b}");
    }
}

#[test]
fn eq_ignore_ascii_case_matches_std() {
    for (a, b) in [("Book", "book"), ("BOOK", "book"), ("Bööк", "bööк"), ("Ä", "ä"), ("a", "ab")] {
        assert_eq!(eq_ignore_ascii_case(a, b), a.eq_ignore_ascii_case(b));
    }
}

#[test]
fn centered_rect_fits_and_centres() {
    let area = Rect { x: 0, y: 0, width: 100, height: 40 };
    let r = centered_rect(area, 60, 20);
    assert!(r == Rect { x: 20, y: 10, width: 60, height: 20 });
}

#[test]
fn centered_rect_shrinks_to_area() {
    let area = Rect { x: 5, y: 3, width: 30, height: 10 };
    let r = centered_rect(area, 60, 20);
    assert!(r == Rect { x: 6, y: 4, width: 28, height: 8 });
    let tiny = Rect { x: 0, y: 0, width: 1, height: 2 };
    let r = centered_rect(tiny, 5, 5);
    assert!(r == Rect { x: 0, y: 1, width: 0, height: 0 });
}

#[test]
fn trailing_slashes_are_dropped() {
    for s in ["http://localhost:7878/", "http://x//", "http://x", "", "///"] {
        assert_eq!(trim_trailing(s, '/'), s.trim_end_matches('/'));
    }
    assert_eq!(trim_trailing("http://127.0.0.1:7878//", '/'), "http://127.0.0.1:7878");
}
