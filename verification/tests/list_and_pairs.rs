use media_elo::listing::{sort_rows, visible_rows, ListState, SortMode};
use media_elo::model::Row;
use media_elo::pairer::{same_type_candidates, unmatched_candidates, Pairer, HISTORY_SIZE};

fn elo_key(x: f64) -> u64 {
    let x = if x == 0.0 { 0.0 } else { x };
    let bits = x.to_bits();
    if bits >> 63 == 1 {
        !bits
    } else {
        bits | (1u64 << 63)
    }
}

fn row(id: u128, type_: &str, title: &str, elo: f64, matches: u32, status: &str, date: &str) -> Row {
    Row {
        id,
        type_: type_.to_string(),
        title: title.to_string(),
        elo: elo_key(elo),
        matches,
        status: status.to_string(),
        date_added: date.to_string(),
    }
}

fn sample() -> Vec<Row> {
    vec![
        row(1, "Book", "Dune", 1550.0, 12, "done", "2024-01-03"),
        row(2, "Book", "anathem", 1600.0, 3, "dropped", "2024-02-01"),
        row(3, "Manga", "Berserk", 1500.0, 0, "backlog", "2024-01-10"),
        row(4, "Show", "Andor", 1480.0, 30, "in progress", "2023-12-31"),
        row(5, "Book", "Hyperion", 1450.0, 7, "done", "2024-01-03"),
        row(6, "Manga", "akira", 1500.0, 0, "backlog", "2024-03-05"),
    ]
}

fn list_with(sort: SortMode) -> ListState {
    let mut l = ListState::default();
    l.sort = sort;
    l
}

#[test]
fn sort_mode_labels() {
    assert_eq!(SortMode::Default.label(), "default");
    assert_eq!(SortMode::Elo.label(), "elo desc");
    assert_eq!(SortMode::Matches.label(), "matches desc");
    assert_eq!(SortMode::DateAdded.label(), "date desc");
    assert_eq!(SortMode::Title.label(), "title");
}

#[test]
fn sort_mode_cycles_through_all_five() {
    let start = SortMode::default();
    assert!(start == SortMode::Default);
    let mut m = start;
    let mut seen = Vec::new();
    for _ in 0..5 {
        seen.push(m.label());
        m = m.next();
    }
    assert!(m == start);
    assert_eq!(seen, vec!["default", "elo desc", "matches desc", "date desc", "title"]);
}

#[test]
fn default_sort_groups_by_status() {
    let rows = sample();
    let v = visible_rows(&rows, &list_with(SortMode::Default));
    // backlog (by lower-cased title), in progress, done (by Elo), dropped.
    assert_eq!(v, vec![5, 2, 3, 0, 4, 1]);
}

#[test]
fn elo_sort_highest_first_stable() {
    let rows = sample();
    let v = visible_rows(&rows, &list_with(SortMode::Elo));
    assert_eq!(v, vec![1, 0, 2, 5, 3, 4]);
}

#[test]
fn matches_sort_most_first_then_title() {
    let rows = sample();
    let v = visible_rows(&rows, &list_with(SortMode::Matches));
    assert_eq!(v, vec![3, 0, 4, 1, 5, 2]);
}

#[test]
fn date_sort_newest_first_then_title() {
    let rows = sample();
    let v = visible_rows(&rows, &list_with(SortMode::DateAdded));
    assert_eq!(v, vec![5, 1, 2, 0, 4, 3]);
}

#[test]
fn title_sort_ignores_case() {
    let rows = sample();
    let v = visible_rows(&rows, &list_with(SortMode::Title));
    assert_eq!(v, vec![5, 1, 3, 2, 0, 4]);
}

#[test]
fn type_filter_and_pending_only() {
    let rows = sample();
    let mut l = list_with(SortMode::Title);
    l.type_filter = Some("Book".to_string());
    assert_eq!(visible_rows(&rows, &l), vec![1, 0, 4]);
    l.pending_only = true;
    // "pending only" hides done entries but keeps dropped ones.
    assert_eq!(visible_rows(&rows, &l), vec![1]);
}

#[test]
fn search_matches_title_or_type_any_case() {
    let rows = sample();
    let mut l = list_with(SortMode::Title);
    l.search_query = "MANGA".to_string();
    assert_eq!(visible_rows(&rows, &l), vec![5, 2]);
    l.search_query = "an".to_string();
    assert_eq!(visible_rows(&rows, &l), vec![5, 1, 3, 2]);
    l.search_query = "zzz".to_string();
    assert!(visible_rows(&rows, &l).is_empty());
}

#[test]
fn sort_rows_orders_a_subset() {
    let rows = sample();
    assert_eq!(sort_rows(&rows, SortMode::Elo, vec![4, 0, 3]), vec![0, 3, 4]);
    assert!(sort_rows(&rows, SortMode::Title, Vec::new()).is_empty());
}

#[test]
fn pair_id_is_symmetric_and_ordered() {
    let rows = sample();
    assert_eq!(Pairer::pair_id(&rows[0], &rows[3]), (1, 4));
    assert_eq!(Pairer::pair_id(&rows[3], &rows[0]), (1, 4));
}

#[test]
fn forget_last_undoes_remember() {
    let rows = sample();
    let mut p = Pairer::new();
    assert_eq!(p.forget_last(), None);
    p.remember(&rows[0], &rows[1]);
    p.remember(&rows[4], &rows[0]);
    assert!(p.is_recent((1, 2)));
    assert!(p.is_recent((1, 5)));
    assert_eq!(p.forget_last(), Some((1, 5)));
    assert!(!p.is_recent((1, 5)));
    assert!(p.is_recent((1, 2)));
    assert_eq!(p.forget_last(), Some((1, 2)));
    assert_eq!(p.forget_last(), None);
}

#[test]
fn history_keeps_last_thirty_pairs() {
    let mut p = Pairer::default();
    let a = row(0, "Book", "a", 1500.0, 0, "done", "");
    for i in 1..=(HISTORY_SIZE as u128 + 1) {
        let b = row(i, "Book", "b", 1500.0, 0, "done", "");
        p.remember(&a, &b);
    }
    assert!(!p.is_recent((0, 1)));
    assert!(p.is_recent((0, 2)));
    assert!(p.is_recent((0, HISTORY_SIZE as u128 + 1)));
}

#[test]
fn candidates_share_the_first_entrys_type() {
    let rows = sample();
    let eligible = vec![0, 1, 2, 4, 5];
    assert_eq!(same_type_candidates(&rows, &eligible, 0), vec![1, 4]);
    assert_eq!(same_type_candidates(&rows, &eligible, 2), vec![5]);
    assert_eq!(unmatched_candidates(&rows, &vec![2, 5, 0]), vec![2, 5]);
}

#[test]
fn pick_prefers_unmatched_draws() {
    let mut rows = sample();
    rows[1].matches = 0;
    let eligible = vec![0, 1, 4];
    let p = Pairer::new();
    // unmatched candidates of row 0: [1]; all candidates: [1, 4]
    assert_eq!(p.pick_from(&rows, &eligible, 0, &vec![0], &vec![1]), Some((1, 2)));
    // with no usable unmatched draw, the opponent draws decide
    assert_eq!(p.pick_from(&rows, &eligible, 0, &vec![], &vec![1]), Some((1, 5)));
}

#[test]
fn pick_skips_recent_pairs() {
    let rows = sample();
    let eligible = vec![0, 1, 4];
    let mut p = Pairer::new();
    p.remember(&rows[0], &rows[1]);
    assert_eq!(p.pick_from(&rows, &eligible, 0, &vec![], &vec![0, 0, 1]), Some((1, 5)));
    p.remember(&rows[4], &rows[0]);
    assert_eq!(p.pick_from(&rows, &eligible, 0, &vec![], &vec![0, 1, 0]), None);
}

#[test]
fn pick_needs_two_entries_of_a_type() {
    let rows = sample();
    let p = Pairer::new();
    assert_eq!(p.pick_from(&rows, &vec![0], 0, &vec![], &vec![]), None);
    assert_eq!(p.pick_from(&rows, &vec![0, 3], 3, &vec![], &vec![]), None);
}

#[test]
fn pick_draws_a_fresh_pair_of_one_type() {
    let rows = sample();
    let eligible = vec![0, 1, 4];
    let mut p = Pairer::new();
    for _ in 0..50 {
        let got = p.pick(&rows, &eligible, Some(0), &vec![1; 20]).expect("a pair");
        assert_eq!(got.0, 1);
        assert!(got.1 == 2 || got.1 == 5);
    }
    p.remember(&rows[0], &rows[1]);
    for _ in 0..50 {
        assert_eq!(p.pick(&rows, &eligible, Some(0), &vec![0; 20]).map(|x| x.1).unwrap_or(5), 5);
    }
    p.remember(&rows[0], &rows[4]);
    assert_eq!(p.pick(&rows, &eligible, Some(0), &vec![0; 20]), None);
}

#[test]
fn pick_without_partners_gives_nothing() {
    let rows = sample();
    let p = Pairer::new();
    assert_eq!(p.pick(&rows, &vec![0], Some(0), &Vec::new()), None);
    assert_eq!(p.pick(&rows, &vec![0, 3], Some(3), &Vec::new()), None);
}

#[test]
fn pick_prefers_an_unmatched_opponent() {
    let mut rows = sample();
    rows[1].matches = 0;
    let p = Pairer::new();
    for _ in 0..50 {
        // the only unmatched candidate is row 1 (id 2), drawn first
        assert_eq!(p.pick(&rows, &vec![0, 1, 4], Some(0), &vec![1; 20]), Some((1, 2)));
    }
}

#[test]
fn pick_with_nothing_eligible() {
    let rows = sample();
    let p = Pairer::new();
    assert_eq!(p.pick(&rows, &Vec::new(), None, &Vec::new()), None);
    assert_eq!(p.pick(&Vec::new(), &Vec::new(), None, &Vec::new()), None);
}
