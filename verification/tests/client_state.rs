use media_elo::app::{find_ci, find_text, validate_type_name, App, Modal, Screen, UndoEntry};
use media_elo::forms::{KeyCode, KeyEvent, TypeManagerMode};
use media_elo::keys::{dispatch_key, Command};
use media_elo::listing::SortMode;
use media_elo::model::Row;
use media_elo::pairer::Pairer;

fn row(id: u128, type_: &str, title: &str, elo: u64, matches: u32, status: &str) -> Row {
    Row {
        id,
        type_: type_.to_string(),
        title: title.to_string(),
        elo,
        matches,
        status: status.to_string(),
        date_added: "2024-05-01".to_string(),
    }
}

fn strings(v: &[&str]) -> Vec<String> {
    v.iter().map(|s| s.to_string()).collect()
}

fn sample_app() -> App {
    let rows = vec![
        row(1, "Book", "Dune", 300, 2, "done"),
        row(2, "Book", "Hyperion", 200, 1, "done"),
        row(3, "Manga", "Akira", 100, 0, "backlog"),
        row(4, "Comic", "Maus", 150, 0, "dropped"),
    ];
    App::with_data(Pairer::new(), rows, strings(&["Manga", "Show", "Book"]))
}

fn press(app: &mut App, code: KeyCode) -> Command {
    dispatch_key(app, KeyEvent { code, shift: false })
}

fn ch(app: &mut App, c: char) -> Command {
    press(app, KeyCode::Char(c))
}

#[test]
fn starts_on_the_list() {
    let app = sample_app();
    assert!(app.screen == Screen::List);
    assert!(matches!(app.modal, Modal::Hidden));
    assert_eq!(app.list.visible, vec![2, 0, 1, 3]);
    assert_eq!(app.list.cursor, 0);
    assert!(app.undo_stack.is_empty());
    assert!(!app.should_quit);
}

#[test]
fn cursor_moves_within_the_list() {
    let mut app = sample_app();
    ch(&mut app, 'k');
    assert_eq!(app.list.cursor, 0);
    ch(&mut app, 'j');
    press(&mut app, KeyCode::Down);
    assert_eq!(app.list.cursor, 2);
    ch(&mut app, 'G');
    assert_eq!(app.list.cursor, 3);
    ch(&mut app, 'j');
    assert_eq!(app.list.cursor, 3);
    ch(&mut app, 'g');
    assert_eq!(app.list.cursor, 0);
    assert_eq!(app.current_row_idx(), Some(2));
}

#[test]
fn type_filter_cycles_through_used_types() {
    let mut app = sample_app();
    assert_eq!(app.available_types(), strings(&["Manga", "Book", "Comic"]));
    ch(&mut app, 't');
    assert_eq!(app.list.type_filter.as_deref(), Some("Manga"));
    assert_eq!(app.list.visible, vec![2]);
    ch(&mut app, 't');
    assert_eq!(app.list.type_filter.as_deref(), Some("Book"));
    ch(&mut app, 'T');
    assert_eq!(app.list.type_filter.as_deref(), Some("Manga"));
    ch(&mut app, 'T');
    assert_eq!(app.list.type_filter, None);
    ch(&mut app, 'T');
    assert_eq!(app.list.type_filter.as_deref(), Some("Comic"));
    ch(&mut app, 't');
    assert_eq!(app.list.type_filter, None);
    assert_eq!(app.list.visible.len(), 4);
}

#[test]
fn pending_only_and_sort_keys() {
    let mut app = sample_app();
    ch(&mut app, 'p');
    assert!(app.list.pending_only);
    assert_eq!(app.list.visible, vec![2, 3]);
    ch(&mut app, 'p');
    ch(&mut app, 'o');
    assert!(app.list.sort == SortMode::Elo);
    assert_eq!(app.list.visible, vec![0, 1, 3, 2]);
    for _ in 0..4 {
        ch(&mut app, 'o');
    }
    assert!(app.list.sort == SortMode::Default);
}

#[test]
fn search_typing_filters_live() {
    let mut app = sample_app();
    ch(&mut app, '/');
    assert!(app.list.search_active);
    ch(&mut app, 'H');
    ch(&mut app, 'Y');
    assert_eq!(app.list.search_query, "HY");
    assert_eq!(app.list.visible, vec![1]);
    press(&mut app, KeyCode::Backspace);
    press(&mut app, KeyCode::Backspace);
    assert_eq!(app.list.visible.len(), 4);
    ch(&mut app, 'm');
    press(&mut app, KeyCode::Enter);
    assert!(!app.list.search_active);
    assert_eq!(app.list.search_query, "m");
    assert_eq!(app.list.visible, vec![2, 3]);
    ch(&mut app, '/');
    ch(&mut app, 'x');
    press(&mut app, KeyCode::Esc);
    assert!(app.list.search_query.is_empty());
    assert_eq!(app.list.visible.len(), 4);
}

#[test]
fn list_keys_that_need_the_server() {
    let mut app = sample_app();
    assert!(ch(&mut app, 'd') == Command::ToggleStatus);
    assert!(ch(&mut app, 'y') == Command::Yank);
    assert!(ch(&mut app, 'r') == Command::Reload);
    assert!(press(&mut app, KeyCode::Tab) == Command::NextPair);
    assert!(app.screen == Screen::Compare);
    assert!(ch(&mut app, '1') == Command::Vote(true));
    assert!(ch(&mut app, '2') == Command::Vote(false));
    assert!(ch(&mut app, 'u') == Command::UndoVote);
    assert!(ch(&mut app, 's') == Command::NextPair);
    assert!(press(&mut app, KeyCode::Tab) == Command::Nothing);
    assert!(app.screen == Screen::List);
    ch(&mut app, 'q');
    assert!(app.should_quit);
}

#[test]
fn delete_asks_for_confirmation() {
    let mut app = sample_app();
    ch(&mut app, 'j');
    ch(&mut app, 'x');
    match &app.modal {
        Modal::Confirm(c) => assert_eq!(c.message, "Delete Dune?"),
        _ => panic!("no confirmation"),
    }
    assert!(ch(&mut app, 'z') == Command::Nothing);
    assert!(ch(&mut app, 'y') == Command::ConfirmDelete);
    assert_eq!(app.take_confirm(), Some(1));
    assert!(matches!(app.modal, Modal::Hidden));
    app.remove_row(1);
    assert_eq!(app.rows.len(), 3);
    assert_eq!(app.list.visible, vec![1, 0, 2]);
    ch(&mut app, 'x');
    assert!(ch(&mut app, 'n') == Command::Nothing);
    assert!(matches!(app.modal, Modal::Hidden));
}

#[test]
fn add_form_through_keys() {
    let mut app = sample_app();
    ch(&mut app, 'a');
    assert!(matches!(app.modal, Modal::Add(_)));
    press(&mut app, KeyCode::Right);
    press(&mut app, KeyCode::Tab);
    for c in "  Blame! ".chars() {
        ch(&mut app, c);
    }
    press(&mut app, KeyCode::Tab);
    ch(&mut app, '7');
    press(&mut app, KeyCode::Tab);
    assert!(press(&mut app, KeyCode::Enter) == Command::SubmitAdd);
    let draft = app.add_form_request().expect("a draft");
    assert_eq!(draft.type_, "Show");
    assert_eq!(draft.title, "Blame!");
    assert_eq!(draft.rating, "7");
    assert_eq!(draft.status, "backlog");
    app.modal = Modal::Hidden;
    app.add_applied(row(9, "Show", "Blame!", 0, 0, "backlog"));
    assert_eq!(app.rows.len(), 5);
    assert_eq!(app.list.visible, vec![2, 4, 0, 1, 3]);
}

#[test]
fn add_form_needs_a_title() {
    let mut app = sample_app();
    ch(&mut app, 'a');
    assert!(app.add_form_request().is_none());
    assert!(press(&mut app, KeyCode::Esc) == Command::Nothing);
    assert!(matches!(app.modal, Modal::Hidden));
}

#[test]
fn edit_form_through_keys() {
    let mut app = sample_app();
    ch(&mut app, 'j');
    press(&mut app, KeyCode::Enter);
    match &app.modal {
        Modal::Edit(m) => {
            assert_eq!(m.row_id, 1);
            assert_eq!(m.type_idx, 2);
            assert_eq!(m.status_idx, 3);
        }
        _ => panic!("no edit form"),
    }
    ch(&mut app, '!');
    press(&mut app, KeyCode::Tab);
    press(&mut app, KeyCode::Left);
    assert!(press(&mut app, KeyCode::Enter) == Command::SubmitEdit);
    let (id, req) = app.edit_form_request().expect("a request");
    assert_eq!(id, 1);
    assert_eq!(req.title, "Dune!");
    assert_eq!(req.type_, "Book");
    assert_eq!(req.status, "on hold");
}

#[test]
fn status_toggle_moves_to_next_status() {
    let mut app = sample_app();
    assert_eq!(app.status_toggle_target(), Some((3, "in progress".to_string())));
    ch(&mut app, 'G');
    assert_eq!(app.status_toggle_target(), Some((4, "backlog".to_string())));
    app.status_applied(row(4, "Comic", "Maus", 150, 0, "backlog"));
    assert_eq!(app.rows[3].status, "backlog");
    assert_eq!(app.list.visible, vec![2, 3, 0, 1]);
    assert_eq!(app.list.cursor, 3);
    assert_eq!(app.current_title(), Some("Hyperion".to_string()));
}

#[test]
fn vote_then_undo_restores_rows() {
    let mut app = sample_app();
    app.compare.current_pair = Some((1, 2));
    let plan = app.vote_plan(false).expect("a plan");
    assert_eq!(plan.winner_id, 2);
    assert_eq!(plan.loser_id, 1);
    let snap = plan.snapshot;
    assert_eq!((snap.old_elo_a, snap.old_elo_b, snap.old_matches_a, snap.old_matches_b), (300, 200, 2, 1));
    app.vote_applied(
        row(2, "Book", "Hyperion", 216, 2, "done"),
        row(1, "Book", "Dune", 284, 3, "done"),
        16,
        16,
        snap,
    );
    assert_eq!((app.rows[0].elo, app.rows[0].matches), (284, 3));
    assert_eq!((app.rows[1].elo, app.rows[1].matches), (216, 2));
    assert!(app.pairer.is_recent((1, 2)));
    let r = app.compare.last_result.as_ref().expect("a result");
    assert_eq!((r.winner_title.as_str(), r.loser_title.as_str(), r.delta_w, r.delta_l), ("Hyperion", "Dune", 16, 16));
    let u: UndoEntry = app.pop_undo().expect("an entry");
    app.undo_applied(u);
    assert_eq!((app.rows[0].elo, app.rows[0].matches), (300, 2));
    assert_eq!((app.rows[1].elo, app.rows[1].matches), (200, 1));
    assert!(!app.pairer.is_recent((1, 2)));
    assert_eq!(app.compare.current_pair, Some((1, 2)));
    assert!(app.compare.last_result.is_none());
    assert!(app.pop_undo().is_none());
}

#[test]
fn vote_on_a_vanished_row_clears_the_pair() {
    let mut app = sample_app();
    app.compare.current_pair = Some((1, 99));
    assert!(app.vote_plan(true).is_none());
    assert_eq!(app.compare.current_pair, None);
    assert!(app.vote_plan(true).is_none());
}

#[test]
fn eligible_rows_are_finished_ones_of_the_filter() {
    let mut app = sample_app();
    assert_eq!(app.eligible_indices(), vec![0, 1, 3]);
    app.list.type_filter = Some("Book".to_string());
    assert_eq!(app.eligible_indices(), vec![0, 1]);
}

#[test]
fn stats_screen_scrolling() {
    let mut app = sample_app();
    ch(&mut app, '?');
    assert!(app.screen == Screen::Stats);
    assert_eq!(app.stats_scroll, 0);
    ch(&mut app, 'k');
    assert_eq!(app.stats_scroll, 0);
    ch(&mut app, 'd');
    ch(&mut app, 'j');
    assert_eq!(app.stats_scroll, 11);
    ch(&mut app, 'u');
    assert_eq!(app.stats_scroll, 1);
    app.stats_content_height = 40;
    press(&mut app, KeyCode::End);
    assert_eq!(app.stats_scroll, 40);
    press(&mut app, KeyCode::Home);
    assert_eq!(app.stats_scroll, 0);
    ch(&mut app, 'H');
    assert!(app.show_help);
    press(&mut app, KeyCode::Esc);
    assert!(app.screen == Screen::List);
}

#[test]
fn type_manager_add_rename_delete_move() {
    let mut app = sample_app();
    ch(&mut app, 'N');
    ch(&mut app, 'a');
    for c in " manga ".chars() {
        ch(&mut app, c);
    }
    assert!(press(&mut app, KeyCode::Enter) == Command::TypeMgrSubmit);
    assert!(app.type_mgr_add_plan().is_none());
    match &app.modal {
        Modal::TypeManager(m) => assert_eq!(m.error.as_deref(), Some("type already exists")),
        _ => panic!("type manager closed"),
    }
    press(&mut app, KeyCode::Backspace);
    for _ in 0..6 {
        press(&mut app, KeyCode::Backspace);
    }
    for c in "Game".chars() {
        ch(&mut app, c);
    }
    assert_eq!(app.type_mgr_add_plan(), Some("Game".to_string()));
    app.type_mgr_saved("Game", strings(&["Manga", "Show", "Book", "Game"]));
    match &app.modal {
        Modal::TypeManager(m) => {
            assert!(m.mode == TypeManagerMode::Browse);
            assert_eq!(m.cursor, 3);
        }
        _ => panic!("type manager closed"),
    }
    ch(&mut app, 'k');
    ch(&mut app, 'k');
    assert_eq!(app.type_mgr_delete_plan(), Some("Show".to_string()));
    app.type_mgr_deleted("show");
    assert_eq!(app.types, strings(&["Manga", "Book", "Game"]));
    ch(&mut app, 'g');
    assert_eq!(app.type_mgr_delete_plan(), None);
    match &app.modal {
        Modal::TypeManager(m) => assert!(m.error.is_some()),
        _ => panic!("type manager closed"),
    }
    assert!(ch(&mut app, 'J') == Command::TypeMgrMove(1));
    let (idx, list) = app.type_mgr_move_plan(1).expect("a move");
    assert_eq!(idx, 1);
    assert_eq!(list, strings(&["Book", "Manga", "Game"]));
    assert!(app.type_mgr_move_plan(-1).is_none());
    app.type_mgr_moved(idx, list);
    ch(&mut app, 'r');
    for _ in 0..5 {
        press(&mut app, KeyCode::Backspace);
    }
    for c in "Comics".chars() {
        ch(&mut app, c);
    }
    assert_eq!(app.type_mgr_rename_plan(), Some(("Manga".to_string(), "Comics".to_string())));
    press(&mut app, KeyCode::Esc);
    press(&mut app, KeyCode::Esc);
    assert!(matches!(app.modal, Modal::Hidden));
}

#[test]
fn client_type_name_check() {
    assert_eq!(validate_type_name(""), Some("name is required".to_string()));
    let long: String = std::iter::repeat('a').take(65).collect();
    assert_eq!(validate_type_name(&long), Some("max 64 chars".to_string()));
    assert_eq!(validate_type_name("Game"), None);
}

#[test]
fn type_lookups() {
    let types = strings(&["Manga", "Book"]);
    assert_eq!(find_ci(&types, "BOOK"), Some(1));
    assert_eq!(find_ci(&types, "Game"), None);
    assert_eq!(find_text(&types, &"book".to_string()), None);
    assert_eq!(find_text(&types, &"Book".to_string()), Some(1));
}

#[test]
fn set_rows_keeps_the_cursor_inside() {
    let mut app = sample_app();
    ch(&mut app, 'G');
    app.set_rows(vec![row(1, "Book", "Dune", 300, 2, "done")]);
    assert_eq!(app.list.visible, vec![0]);
    assert_eq!(app.list.cursor, 0);
    app.set_rows(Vec::new());
    assert!(app.list.visible.is_empty());
    assert_eq!(app.current_row_idx(), None);
}

#[test]
fn five_status_toggles_come_back() {
    let mut app = sample_app();
    let start = app.rows[2].status.clone();
    let mut seen = Vec::new();
    for _ in 0..5 {
        let (id, next) = app.status_toggle_target().expect("a row under the cursor");
        seen.push(next.clone());
        let idx = app.row_idx_by_id(id).expect("the row");
        let mut r = app.rows[idx].duplicate();
        r.status = next;
        app.status_applied(r);
        app.list.cursor = app.list.visible.iter().position(|&i| i == idx).expect("still shown");
    }
    assert_eq!(seen, vec!["in progress", "on hold", "done", "dropped", "backlog"]);
    assert_eq!(app.rows[2].status, start);
}

#[test]
fn moving_a_type_back_restores_the_order() {
    let mut app = sample_app();
    ch(&mut app, 'N');
    let before = app.types.clone();
    let (idx, list) = app.type_mgr_move_plan(1).expect("a move");
    app.type_mgr_moved(idx, list);
    assert_eq!(app.types, strings(&["Show", "Manga", "Book"]));
    let (idx, list) = app.type_mgr_move_plan(-1).expect("a move back");
    app.type_mgr_moved(idx, list);
    assert_eq!(app.types, before);
    match &app.modal {
        Modal::TypeManager(m) => assert_eq!(m.cursor, 0),
        _ => panic!("type manager closed"),
    }
}

#[test]
fn type_filter_forward_then_back() {
    let mut app = sample_app();
    for start in [None, Some("Manga"), Some("Book"), Some("Comic")] {
        app.list.type_filter = start.map(|s| s.to_string());
        app.refresh_list();
        app.cycle_type(true);
        app.cycle_type(false);
        assert_eq!(app.list.type_filter.as_deref(), start);
    }
}

#[test]
fn server_outcomes_set_the_error_line() {
    let mut app = sample_app();
    app.record_outcome("reload", Some("connection refused".to_string()));
    assert_eq!(app.last_error.as_deref(), Some("reload: connection refused"));
    app.record_outcome("vote", None);
    assert_eq!(app.last_error, None);
}

#[test]
fn client_name_check_agrees_with_the_server() {
    let long: String = std::iter::repeat('é').take(65).collect();
    let edge: String = std::iter::repeat('é').take(64).collect();
    for raw in ["", "   ", " Game ", "Visual Novel", long.as_str(), edge.as_str(), "\t x \n"] {
        let trimmed = media_elo::text::trim_string(raw);
        let client_ok = validate_type_name(&trimmed).is_none();
        let server = media_elo::server::validate_type_name(&trimmed);
        assert_eq!(client_ok, server.is_ok(), "{raw:?}");
        if let Ok(name) = server {
            assert_eq!(name, trimmed);
        }
    }
}

#[test]
fn empty_search_shows_every_row() {
    let rows = vec![
        row(1, "Book", "Zeta", 1400, 0, "done"),
        row(2, "Book", "alpha", 1600, 0, "done"),
        row(3, "Book", "Mid", 1500, 0, "backlog"),
    ];
    let mut app = App::with_data(Pairer::new(), rows, Vec::new());
    assert_eq!(app.list.visible, vec![2, 1, 0]);
    assert_eq!(app.list.cursor, 0);
    app.refresh_list();
    assert_eq!(app.list.visible, vec![2, 1, 0]);
    assert_eq!(app.list.cursor, 0);
}

#[test]
fn refresh_twice_changes_nothing() {
    let mut app = sample_app();
    ch(&mut app, 'G');
    app.rows.pop();
    app.refresh_list();
    let (v, c) = (app.list.visible.clone(), app.list.cursor);
    app.refresh_list();
    assert_eq!((app.list.visible.clone(), app.list.cursor), (v, c));
}

#[test]
fn type_filter_walks_both_ways() {
    let mut app = sample_app();
    let avail = app.available_types();
    for forward in [true, false] {
        app.list.type_filter = None;
        app.refresh_list();
        for k in 1..=avail.len() {
            app.cycle_type(forward);
            let want = if forward { &avail[k - 1] } else { &avail[avail.len() - k] };
            assert_eq!(app.list.type_filter.as_ref(), Some(want));
        }
        app.cycle_type(forward);
        assert_eq!(app.list.type_filter, None);
    }
    for start in [None, Some("Manga"), Some("Book"), Some("Comic")] {
        app.list.type_filter = start.map(|s| s.to_string());
        app.refresh_list();
        app.cycle_type(false);
        app.cycle_type(true);
        assert_eq!(app.list.type_filter.as_deref(), start);
    }
}

#[test]
fn undo_restores_scores_whatever_the_server_answered() {
    let mut app = sample_app();
    app.compare.current_pair = Some((1, 2));
    let plan = app.vote_plan(true).expect("a plan");
    // the server's rows also carry a changed title and status
    app.vote_applied(
        row(1, "Book", "Dune (new)", 999, 9, "dropped"),
        row(2, "Book", "Hyperion", 1, 7, "done"),
        5,
        5,
        plan.snapshot,
    );
    app.compare.current_pair = Some((3, 4));
    let u = app.pop_undo().expect("an entry");
    app.undo_applied(u);
    assert_eq!((app.rows[0].id, app.rows[0].elo, app.rows[0].matches), (1, 300, 2));
    assert_eq!((app.rows[1].id, app.rows[1].elo, app.rows[1].matches), (2, 200, 1));
    assert!(app.undo_stack.is_empty());
    assert!(!app.pairer.is_recent((1, 2)));
    assert_eq!(app.compare.current_pair, Some((1, 2)));
    assert!(app.compare.last_result.is_none());
}
