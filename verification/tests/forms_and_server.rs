use media_elo::forms::{
    find_type, handle_text_input, ring_move, AddField, AddModal, EditField, EditModal,
    FormOutcome, KeyCode, KeyEvent, TypeManagerMode, TypeManagerModal,
};
use media_elo::model::Row;
use media_elo::server::{
    add_type_answer, delete_type_answer, parse_raw, rename_type_answer, reorder_check,
    reorder_types_answer, row_change_answer, validate_title, validate_type_name, AddTypeResult,
    ApiError, DeleteTypeResult, RawRow, RenameTypeResult, ReorderTypesResult, BASE_ELO_KEY,
    STATUS_BAD_REQUEST, STATUS_CONFLICT, STATUS_NOT_FOUND, STATUS_NO_CONTENT,
};
use media_elo::stats::{entries_by_elo, summarize};

fn key(code: KeyCode) -> KeyEvent {
    KeyEvent { code, shift: false }
}

fn ch(c: char) -> KeyEvent {
    key(KeyCode::Char(c))
}

fn strings(v: &[&str]) -> Vec<String> {
    v.iter().map(|s| s.to_string()).collect()
}

fn row(id: u128, type_: &str, title: &str, elo: u64, matches: u32, status: &str) -> Row {
    Row {
        id,
        type_: type_.to_string(),
        title: title.to_string(),
        elo,
        matches,
        status: status.to_string(),
        date_added: "2024-05-01".to_string(),
    }
}

fn err_of<T>(r: Result<T, ApiError>) -> (u16, String) {
    match r {
        Ok(_) => panic!("expected an error"),
        Err(e) => (e.status, e.message),
    }
}

#[test]
fn text_input_appends_and_deletes() {
    let mut buf = String::from("ab");
    handle_text_input(&mut buf, ch('c'));
    assert_eq!(buf, "abc");
    handle_text_input(&mut buf, key(KeyCode::Backspace));
    handle_text_input(&mut buf, key(KeyCode::Backspace));
    assert_eq!(buf, "a");
    handle_text_input(&mut buf, key(KeyCode::Left));
    assert_eq!(buf, "a");
    handle_text_input(&mut buf, key(KeyCode::Backspace));
    handle_text_input(&mut buf, key(KeyCode::Backspace));
    assert_eq!(buf, "");
}

#[test]
fn ring_move_wraps_both_ways() {
    assert_eq!(ring_move(0, 5, true), 1);
    assert_eq!(ring_move(4, 5, true), 0);
    assert_eq!(ring_move(0, 5, false), 4);
    assert_eq!(ring_move(3, 5, false), 2);
    assert_eq!(ring_move(7, 5, true), 3);
    assert_eq!(ring_move(0, 1, true), 0);
    for i in 0..8usize {
        assert_eq!(ring_move(ring_move(i, 8, true), 8, false), i);
    }
}

#[test]
fn add_form_starts_blank_on_backlog() {
    let m = AddModal::new();
    assert_eq!(m.type_idx, 0);
    assert_eq!(m.status_idx, 0);
    assert!(m.title.is_empty() && m.rating.is_empty());
    assert!(m.focus == AddField::Type);
    let d = AddModal::default();
    assert!(d.type_idx == 0 && d.status_idx == 0 && d.title.is_empty() && d.focus == AddField::Type);
}

#[test]
fn add_form_keys() {
    let mut m = AddModal::new();
    assert!(m.handle_key(key(KeyCode::Left), 3) == FormOutcome::Stay);
    assert_eq!(m.type_idx, 2);
    assert!(m.handle_key(ch('l'), 3) == FormOutcome::Stay);
    assert_eq!(m.type_idx, 0);
    assert!(m.handle_key(key(KeyCode::Enter), 3) == FormOutcome::Stay);
    assert!(m.focus == AddField::Title);
    m.handle_key(ch('h'), 3);
    m.handle_key(ch('i'), 3);
    assert_eq!(m.title, "hi");
    assert_eq!(m.type_idx, 0);
    m.handle_key(key(KeyCode::Tab), 3);
    m.handle_key(ch('8'), 3);
    assert_eq!(m.rating, "8");
    m.handle_key(key(KeyCode::Tab), 3);
    assert!(m.focus == AddField::Status);
    m.handle_key(key(KeyCode::Right), 3);
    m.handle_key(key(KeyCode::Right), 3);
    m.handle_key(key(KeyCode::Right), 3);
    assert_eq!(m.status_idx, 3);
    assert!(m.handle_key(key(KeyCode::Enter), 3) == FormOutcome::Submit);
    m.handle_key(key(KeyCode::BackTab), 3);
    assert!(m.focus == AddField::Rating);
    assert!(m.handle_key(key(KeyCode::Esc), 3) == FormOutcome::Close);
}

#[test]
fn add_form_tab_cycle() {
    let mut m = AddModal::new();
    for _ in 0..4 {
        m.handle_key(key(KeyCode::Tab), 1);
    }
    assert!(m.focus == AddField::Type);
    m.handle_key(key(KeyCode::BackTab), 1);
    assert!(m.focus == AddField::Status);
    m.handle_key(key(KeyCode::Tab), 1);
    assert!(m.focus == AddField::Type);
}

#[test]
fn edit_form_opens_on_the_row() {
    let types = strings(&["Book", "Manga", "Show"]);
    let r = row(9, "Manga", "Akira", 77, 4, "on hold");
    let m = EditModal::new(&r, &types);
    assert_eq!(m.row_id, 9);
    assert_eq!(m.type_idx, 1);
    assert_eq!(m.status_idx, 2);
    assert_eq!(m.title, "Akira");
    assert!(m.focus == EditField::Title);
    assert_eq!(m.display_elo, 77);
    assert_eq!(m.display_matches, 4);
    let odd = row(1, "Comic", "X", 0, 0, "pending");
    let m = EditModal::new(&odd, &types);
    assert_eq!(m.type_idx, 0);
    assert_eq!(m.status_idx, 0);
}

#[test]
fn edit_form_keys() {
    let types = strings(&["Book", "Manga"]);
    let mut m = EditModal::new(&row(2, "Book", "Dun", 0, 0, "done"), &types);
    m.handle_key(ch('e'), 2);
    assert_eq!(m.title, "Dune");
    m.handle_key(key(KeyCode::Enter), 2);
    assert!(m.focus == EditField::Status);
    m.handle_key(key(KeyCode::Right), 2);
    assert_eq!(m.status_idx, 4);
    m.handle_key(key(KeyCode::Right), 2);
    assert_eq!(m.status_idx, 0);
    m.handle_key(key(KeyCode::Tab), 2);
    assert!(m.focus == EditField::Type);
    m.handle_key(ch('l'), 2);
    assert_eq!(m.type_idx, 1);
    m.handle_key(key(KeyCode::BackTab), 2);
    assert!(m.focus == EditField::Status);
    assert!(m.handle_key(key(KeyCode::Enter), 2) == FormOutcome::Submit);
}

#[test]
fn find_type_first_exact_match() {
    let types = strings(&["Book", "book", "Book"]);
    assert_eq!(find_type(&types, &"book".to_string()), Some(1));
    assert_eq!(find_type(&types, &"Book".to_string()), Some(0));
    assert_eq!(find_type(&types, &"BOOK".to_string()), None);
}

#[test]
fn type_manager_starts_browsing() {
    let m = TypeManagerModal::default();
    assert_eq!(m.cursor, 0);
    assert!(m.mode == TypeManagerMode::Browse);
    assert!(m.buffer.is_empty());
    assert!(m.error.is_none());
}

#[test]
fn title_is_trimmed_and_required() {
    assert_eq!(validate_title("  Dune  ").ok(), Some("Dune".to_string()));
    assert_eq!(err_of(validate_title("   ")), (STATUS_BAD_REQUEST, "title is required".to_string()));
    assert_eq!(err_of(validate_title("")), (400, "title is required".to_string()));
}

#[test]
fn type_name_rules() {
    assert_eq!(validate_type_name(" Web Novel ").ok(), Some("Web Novel".to_string()));
    assert_eq!(err_of(validate_type_name(" \t ")), (400, "name is required".to_string()));
    let long: String = std::iter::repeat('x').take(65).collect();
    assert_eq!(
        err_of(validate_type_name(&long)),
        (400, "name must be at most 64 characters".to_string())
    );
    let max: String = std::iter::repeat('é').take(64).collect();
    assert_eq!(validate_type_name(&max).ok(), Some(max.clone()));
}

#[test]
fn catalogue_answers() {
    assert!(add_type_answer(AddTypeResult::Added).is_ok());
    assert_eq!(err_of(add_type_answer(AddTypeResult::AlreadyExists)), (409, "type already exists".to_string()));
    assert!(rename_type_answer(RenameTypeResult::Renamed).is_ok());
    assert_eq!(err_of(rename_type_answer(RenameTypeResult::NotFound)), (STATUS_NOT_FOUND, "type".to_string()));
    assert_eq!(
        err_of(rename_type_answer(RenameTypeResult::Conflict)),
        (STATUS_CONFLICT, "target name already exists".to_string())
    );
    assert!(reorder_types_answer(ReorderTypesResult::Reordered).is_ok());
    assert_eq!(
        err_of(reorder_types_answer(ReorderTypesResult::Mismatch)),
        (400, "names must be a permutation of existing types".to_string())
    );
    assert_eq!(delete_type_answer(DeleteTypeResult::Deleted).ok(), Some(STATUS_NO_CONTENT));
    assert_eq!(err_of(delete_type_answer(DeleteTypeResult::NotFound)), (404, "type".to_string()));
    assert_eq!(err_of(delete_type_answer(DeleteTypeResult::InUse)), (409, "type is in use".to_string()));
    assert_eq!(row_change_answer(true).ok(), Some(204));
    assert_eq!(err_of(row_change_answer(false)), (404, "row".to_string()));
}

#[test]
fn reorder_needs_a_case_insensitive_permutation() {
    let cur = strings(&["Book", "Manga", "Show"]);
    assert!(reorder_check(&cur, &strings(&["show", "BOOK", "Manga"])) == ReorderTypesResult::Reordered);
    assert!(reorder_check(&cur, &strings(&["Book", "Manga"])) == ReorderTypesResult::Mismatch);
    assert!(reorder_check(&cur, &strings(&["Book", "Book", "Show"])) == ReorderTypesResult::Mismatch);
    assert!(reorder_check(&cur, &strings(&["Book", "Manga", "Game"])) == ReorderTypesResult::Mismatch);
    assert!(reorder_check(&Vec::new(), &Vec::new()) == ReorderTypesResult::Reordered);
}

fn raw(type_: &str, title: &str, elo: &str, matches: &str, status: &str, date: &str) -> RawRow {
    RawRow {
        type_: type_.to_string(),
        title: title.to_string(),
        elo: elo.to_string(),
        matches: matches.to_string(),
        status: status.to_string(),
        date_added: date.to_string(),
    }
}

#[test]
fn imported_row_defaults() {
    let r = parse_raw(raw("Book", "Dune", "", "", "", ""), "2024-06-01", 42, None);
    assert_eq!(r.id, 42);
    assert_eq!(r.type_, "Book");
    assert_eq!(r.title, "Dune");
    assert_eq!(r.elo, BASE_ELO_KEY);
    assert_eq!(r.matches, 0);
    assert_eq!(r.status, "done");
    assert_eq!(r.date_added, "2024-06-01");
}

#[test]
fn imported_row_keeps_given_columns() {
    let r = parse_raw(raw("Manga", "Akira", "1612.5", "14", "pending", "2023-01-02"), "2024-06-01", 7, Some(12345));
    assert_eq!(r.elo, 12345);
    assert_eq!(r.matches, 14);
    assert_eq!(r.status, "backlog");
    assert_eq!(r.date_added, "2023-01-02");
    let r = parse_raw(raw("Manga", "Akira", "abc", "x1", "on hold", ""), "2024-06-01", 7, None);
    assert_eq!(r.elo, BASE_ELO_KEY);
    assert_eq!(r.matches, 0);
    assert_eq!(r.status, "on hold");
}

#[test]
fn summary_counts() {
    let rows = vec![
        row(1, "Book", "A", 10, 3, "done"),
        row(2, "Comic", "B", 20, 5, "dropped"),
        row(3, "Manga", "C", 30, 7, "backlog"),
        row(4, "Book", "D", 40, 1, "done"),
        row(5, "Show", "E", 50, 2, "in progress"),
    ];
    let types = strings(&["Manga", "Book", "Show"]);
    let s = summarize(&rows, &types);
    assert_eq!(s.total, 5);
    assert_eq!(s.rankable, vec![0, 1, 3]);
    assert_eq!(s.total_matches, 18);
    assert_eq!(s.rankable_matches, 9);
    assert_eq!(s.status_counts, vec![1, 1, 0, 2, 1]);
    assert_eq!(s.types, strings(&["Book", "Comic"]));
}

#[test]
fn entries_by_elo_highest_first() {
    let rows = vec![
        row(1, "Book", "A", 10, 3, "done"),
        row(2, "Book", "B", 30, 5, "dropped"),
        row(3, "Book", "C", 50, 7, "backlog"),
        row(4, "Book", "D", 30, 1, "done"),
        row(5, "Show", "E", 90, 2, "done"),
    ];
    assert_eq!(entries_by_elo(&rows, &"Book".to_string()), vec![1, 3, 0]);
    assert!(entries_by_elo(&rows, &"Game".to_string()).is_empty());
}

#[test]
fn a_vote_needs_two_entries() {
    assert_eq!(media_elo::server::vote_pair_error(3, 3), Some("winner and loser must differ".to_string()));
    assert_eq!(media_elo::server::vote_pair_error(3, 4), None);
}

#[test]
fn catalogue_outcomes_compare_names_up_to_ascii_case() {
    let cur = strings(&["Book", "Manga", "Web Novel"]);
    assert!(media_elo::server::add_type_outcome(&cur, "MANGA") == AddTypeResult::AlreadyExists);
    assert!(media_elo::server::add_type_outcome(&cur, "Game") == AddTypeResult::Added);
    assert!(media_elo::server::rename_type_outcome(&cur, "manga", "MANGA") == RenameTypeResult::Renamed);
    assert!(media_elo::server::rename_type_outcome(&cur, "Manga", "book") == RenameTypeResult::Conflict);
    assert!(media_elo::server::rename_type_outcome(&cur, "Comic", "Comics") == RenameTypeResult::NotFound);
    assert!(media_elo::server::rename_type_outcome(&cur, "Comic", "Book") == RenameTypeResult::Conflict);
    assert!(media_elo::server::rename_type_outcome(&cur, "web novel", "Webnovel") == RenameTypeResult::Renamed);
    let used = strings(&["Book", "book"]);
    assert!(media_elo::server::delete_type_outcome(&used, &cur, "BOOK") == DeleteTypeResult::InUse);
    assert!(media_elo::server::delete_type_outcome(&used, &cur, "Manga") == DeleteTypeResult::Deleted);
    assert!(media_elo::server::delete_type_outcome(&used, &cur, "Show") == DeleteTypeResult::NotFound);
}

#[test]
fn reorder_targets_name_the_stored_types() {
    let cur = strings(&["Book", "Émission", "Show"]);
    let t = media_elo::server::reorder_targets(&cur, &strings(&["show", "émission", "BOOK"]));
    assert_eq!(t, Some(vec![2, 1, 0]));
    assert_eq!(media_elo::server::reorder_targets(&cur, &strings(&["Show", "Book"])), None);
    assert_eq!(media_elo::server::reorder_targets(&cur, &strings(&["Show", "Show", "Book"])), None);
}
