use media_elo::app::{App, Screen, UndoEntry};
use media_elo::layout::{compare_box, result_line, stats_scroll_view, Rect};
use media_elo::model::Row;
use media_elo::pairer::Pairer;
use media_elo::stats::{stats_lines, StatsLine};
use media_elo::forms::{TypeManagerMode, TypeManagerModal};
use media_elo::view::{
    decimal, manager_lines, state_line, status_mark, type_manager_height, type_usage, ManagerLine,
    StatePart, StatusMark,
};

fn row(id: u128, type_: &str, title: &str, status: &str) -> Row {
    Row {
        id,
        type_: type_.to_string(),
        title: title.to_string(),
        elo: 0,
        matches: 0,
        status: status.to_string(),
        date_added: String::new(),
    }
}

fn render(parts: &[StatePart]) -> Vec<String> {
    parts
        .iter()
        .map(|p| match p {
            StatePart::Field(k, v) => format!("{k}: {v}"),
            StatePart::Highlighted(k, v) => format!("{k}: *{v}*"),
            StatePart::Flag(s) => format!("*{s}*"),
            StatePart::Hint(s) => format!("({s})"),
            StatePart::Error(s) => format!("!{s}!"),
        })
        .collect()
}

fn app() -> App {
    let rows = vec![row(1, "Book", "Dune", "done"), row(2, "Manga", "Akira", "backlog")];
    App::with_data(Pairer::new(), rows, vec!["Book".to_string()])
}

#[test]
fn decimal_matches_to_string() {
    for n in [0u64, 7, 10, 99, 100, 12345, u64::MAX] {
        assert_eq!(decimal(n), n.to_string());
    }
}

#[test]
fn list_state_line() {
    let mut a = app();
    assert_eq!(render(&state_line(&a)), vec!["type: all", "sort: default", "count: 2"]);
    a.list.pending_only = true;
    a.list.search_query = "du".to_string();
    a.list.type_filter = Some("Book".to_string());
    a.refresh_list();
    a.last_error = Some("reload: offline".to_string());
    assert_eq!(
        render(&state_line(&a)),
        vec!["type: Book", "sort: default", "*pending only*", "search: */du*", "count: 0", "!reload: offline!"]
    );
}

#[test]
fn compare_and_stats_state_line() {
    let mut a = app();
    a.screen = Screen::Compare;
    assert_eq!(render(&state_line(&a)), vec!["type: all"]);
    a.undo_stack.push(UndoEntry { a_id: 1, b_id: 2, old_elo_a: 0, old_elo_b: 0, old_matches_a: 0, old_matches_b: 0 });
    assert_eq!(render(&state_line(&a)), vec!["type: all", "undo: 1"]);
    a.screen = Screen::Stats;
    assert_eq!(render(&state_line(&a)), vec!["(press ? to close)"]);
}

#[test]
fn status_marks() {
    assert!(status_mark("done") == StatusMark::Done);
    assert!(status_mark("in progress") == StatusMark::InProgress);
    assert!(status_mark("on hold") == StatusMark::OnHold);
    assert!(status_mark("dropped") == StatusMark::Dropped);
    assert!(status_mark("backlog") == StatusMark::Backlog);
    assert!(status_mark("Done") == StatusMark::Unknown);
}

#[test]
fn type_usage_ignores_ascii_case() {
    let rows = vec![row(1, "Book", "a", "done"), row(2, "BOOK", "b", "done"), row(3, "Manga", "c", "done")];
    assert_eq!(type_usage(&rows, "book"), 2);
    assert_eq!(type_usage(&rows, "Show"), 0);
}

#[test]
fn type_manager_height_limits() {
    assert_eq!(type_manager_height(8, 40), 14);
    assert_eq!(type_manager_height(0, 40), 8);
    assert_eq!(type_manager_height(30, 20), 18);
    assert_eq!(type_manager_height(30, 5), 8);
}

#[test]
fn compare_box_is_centred() {
    let area = Rect { x: 0, y: 1, width: 100, height: 30 };
    let b = compare_box(area);
    assert!(b == Rect { x: 15, y: 11, width: 70, height: 9 });
    assert!(result_line(area, b) == Some(Rect { x: 0, y: 9, width: 100, height: 1 }));
    let small = Rect { x: 0, y: 1, width: 20, height: 9 };
    let b = compare_box(small);
    assert!(b == Rect { x: 2, y: 1, width: 16, height: 9 });
    assert!(result_line(small, b).is_none());
}

#[test]
fn stats_scroll_limits() {
    let v = stats_scroll_view(50, 20, 80, 100);
    assert_eq!(v.offset, 30);
    assert_eq!(v.percent, Some(100));
    let v = stats_scroll_view(50, 20, 80, 10);
    assert_eq!(v.offset, 10);
    assert_eq!(v.percent, Some(33));
    let v = stats_scroll_view(50, 20, 10, 10);
    assert_eq!(v.percent, None);
    let v = stats_scroll_view(10, 20, 80, 5);
    assert_eq!(v.offset, 0);
    assert_eq!(v.percent, None);
}

fn show(lines: &[ManagerLine]) -> Vec<String> {
    lines
        .iter()
        .map(|l| match l {
            ManagerLine::NoTypes => "(none)".to_string(),
            ManagerLine::Type(t, n, sel) => format!("{}{t} {n}", if *sel { ">" } else { " " }),
            ManagerLine::Blank => String::new(),
            ManagerLine::Error(e) => format!("!{e}"),
            ManagerLine::Input(l, b) => format!("{l}: [{b}]"),
            ManagerLine::Hint(h) => format!("?{h}"),
        })
        .collect()
}

#[test]
fn manager_lines_while_browsing() {
    let rows = vec![row(1, "Book", "a", "done"), row(2, "book", "b", "done")];
    let types = vec!["Book".to_string(), "Show".to_string()];
    let mut m = TypeManagerModal::default();
    m.cursor = 1;
    assert_eq!(
        show(&manager_lines(&rows, &types, &m)),
        vec![" Book 2", ">Show 0", "", "?a add  r rename  x delete  K/J reorder  Esc close"]
    );
    m.error = Some("'Book' is in use".to_string());
    assert_eq!(
        show(&manager_lines(&rows, &types, &m)),
        vec![" Book 2", ">Show 0", "", "!'Book' is in use", "", "?a add  r rename  x delete  K/J reorder  Esc close"]
    );
    assert_eq!(show(&manager_lines(&rows, &Vec::new(), &TypeManagerModal::default()))[0], "(none)");
}

#[test]
fn manager_lines_while_typing() {
    let types = vec!["Book".to_string()];
    let mut m = TypeManagerModal::default();
    m.mode = TypeManagerMode::RenameInput;
    m.buffer = "Boo".to_string();
    assert_eq!(
        show(&manager_lines(&Vec::new(), &types, &m)),
        vec![" Book 0", "", "Rename to: [Boo]", "", "?Enter save  Esc back"]
    );
    m.mode = TypeManagerMode::AddInput;
    m.error = Some("name is required".to_string());
    assert_eq!(
        show(&manager_lines(&Vec::new(), &types, &m)),
        vec![" Book 0", "", "New: [Boo]", "!name is required", "", "?Enter save  Esc back"]
    );
}

#[test]
fn compare_lines_show_the_pair() {
    let mut a = app();
    let names = |a: &App| -> Vec<String> {
        media_elo::view::compare_lines(a)
            .into_iter()
            .map(|l| match l {
                media_elo::view::CompareLine::Type(t) => format!("[{t}]"),
                media_elo::view::CompareLine::Blank => String::new(),
                media_elo::view::CompareLine::Entry(n, t, m) => format!("{n}. {t} {m:?}"),
                media_elo::view::CompareLine::Versus => "vs".to_string(),
            })
            .collect()
    };
    assert_eq!(names(&a), vec!["[]", "", "1. Not enough entries to compare. None", "vs", ""]);
    a.compare.current_pair = Some((2, 1));
    assert_eq!(names(&a), vec!["[Manga]", "", "1. Akira Some(0)", "vs", "2. Dune Some(0)"]);
    a.compare.current_pair = Some((2, 9));
    assert_eq!(names(&a)[2], "1. Not enough entries to compare. None");
}

#[test]
fn stats_lines_layout() {
    let mut rows = vec![
        row(1, "Book", "A", "done"),
        row(2, "Book", "B", "dropped"),
        row(3, "Manga", "C", "backlog"),
        row(4, "Comic", "D", "done"),
    ];
    rows[0].elo = 10;
    rows[1].elo = 30;
    rows[3].elo = 5;
    rows[0].matches = 3;
    rows[1].matches = 4;
    let lines = stats_lines(&rows, &vec!["Manga".to_string(), "Book".to_string()]);
    let text: Vec<String> = lines
        .iter()
        .map(|l| match l {
            StatsLine::Heading(h) => format!("#{h}"),
            StatsLine::Count(l, n) => format!("{l} {n}"),
            StatsLine::Average(m, n) => format!("avg {m}/{n}"),
            StatsLine::Blank => String::new(),
            StatsLine::Status(s, n) => format!("{s}={n}"),
            StatsLine::TypeName(t) => format!("type {t}"),
            StatsLine::Spread(v) => format!("spread {v:?}"),
            StatsLine::Entry(k, i) => format!("{k}: {i}"),
        })
        .collect();
    assert_eq!(
        text,
        vec![
            "#Global",
            "Total entries: 4",
            "Rankable (done/dropped): 3",
            "Total matches: 7",
            "avg 7/3",
            "",
            "#By status",
            "backlog=1",
            "in progress=0",
            "on hold=0",
            "done=2",
            "dropped=1",
            "",
            "#Top per type",
            "type Book",
            "spread [1, 0]",
            "1: 1",
            "2: 0",
            "type Comic",
            "spread [3]",
            "1: 3",
        ]
    );
    let empty = stats_lines(&Vec::new(), &Vec::new());
    assert_eq!(empty.len(), 13);
}
