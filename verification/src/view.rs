//! What the screens show, decided apart from how it is drawn: the state
//! line, the status marks, the type manager's lines and decimal numbers.

use vstd::prelude::*;
use vstd::string::StringExecFns;
use crate::app::{App, Screen, row_position};
use crate::forms::{TypeManagerModal, TypeManagerMode};
use crate::listing::{opt_view, sort_label};
use crate::model::Row;
use crate::text::{eq_ascii_ci, eq_ignore_ascii_case, push_char};

verus! {

/// The digit character for `d` (0 to 9).
pub open spec fn digit_char(d: nat) -> char {
    if d == 0 {
        '0'
    } else if d == 1 {
        '1'
    } else if d == 2 {
        '2'
    } else if d == 3 {
        '3'
    } else if d == 4 {
        '4'
    } else if d == 5 {
        '5'
    } else if d == 6 {
        '6'
    } else if d == 7 {
        '7'
    } else if d == 8 {
        '8'
    } else {
        '9'
    }
}

/// `n` written in decimal, without leading zeros.
pub open spec fn decimal_text(n: nat) -> Seq<char>
    decreases n,
{
    if n < 10 {
        seq![digit_char(n)]
    } else {
        decimal_text(n / 10).push(digit_char(n % 10))
    }
}

fn digit(d: u64) -> (c: char)
    requires
        d < 10,
    ensures
        c == digit_char(d as nat),
{
    if d == 0 {
        '0'
    } else if d == 1 {
        '1'
    } else if d == 2 {
        '2'
    } else if d == 3 {
        '3'
    } else if d == 4 {
        '4'
    } else if d == 5 {
        '5'
    } else if d == 6 {
        '6'
    } else if d == 7 {
        '7'
    } else if d == 8 {
        '8'
    } else {
        '9'
    }
}

/// `n` in decimal, as `to_string` writes an unsigned integer.
pub fn decimal(n: u64) -> (out: String)
    ensures
        out@ == decimal_text(n as nat),
    decreases n,
{
    if n < 10 {
        let mut s = String::new();
        push_char(&mut s, digit(n));
        assert(s@ =~= seq![digit_char(n as nat)]);
        s
    } else {
        let mut s = decimal(n / 10);
        push_char(&mut s, digit(n % 10));
        s
    }
}

/// One piece of the state line at the bottom of the screen.
pub enum StatePart {
    /// `key: value`.
    Field(String, String),
    /// `key: value`, with the value highlighted.
    Highlighted(String, String),
    /// A highlighted flag with no key.
    Flag(String),
    /// A dim hint.
    Hint(String),
    /// The last error.
    Error(String),
}

/// The text of a [`StatePart`].
pub enum PartText {
    Field(Seq<char>, Seq<char>),
    Highlighted(Seq<char>, Seq<char>),
    Flag(Seq<char>),
    Hint(Seq<char>),
    Error(Seq<char>),
}

impl View for StatePart {
    type V = PartText;

    open spec fn view(&self) -> PartText {
        match self {
            StatePart::Field(k, v) => PartText::Field(k@, v@),
            StatePart::Highlighted(k, v) => PartText::Highlighted(k@, v@),
            StatePart::Flag(s) => PartText::Flag(s@),
            StatePart::Hint(s) => PartText::Hint(s@),
            StatePart::Error(s) => PartText::Error(s@),
        }
    }
}

/// The texts of a list of parts.
pub open spec fn part_texts(parts: Seq<StatePart>) -> Seq<PartText> {
    parts.map_values(|p: StatePart| p@)
}

/// The type filter as the state line names it: "all" when there is none.
pub open spec fn filter_label(f: Option<Seq<char>>) -> Seq<char> {
    match f {
        Some(t) => t,
        None => "all"@,
    }
}

/// The state line for `a`: on the list the type filter, the sort, "pending
/// only" when set, the search text when not empty and the number of rows
/// shown; on the compare screen the type filter and the number of votes
/// that can be undone, when there are any; on the statistics a hint. The
/// last error, if any, comes last.
pub open spec fn state_line_of(a: App) -> Seq<PartText> {
    let type_part = PartText::Field("type"@, filter_label(opt_view(a.list.type_filter)));
    let base = match a.screen {
        Screen::List => {
            let s0 = seq![type_part, PartText::Field("sort"@, sort_label(a.list.sort))];
            let s1 = if a.list.pending_only {
                s0.push(PartText::Flag("pending only"@))
            } else {
                s0
            };
            let s2 = if a.list.search_query@.len() > 0 {
                s1.push(PartText::Highlighted("search"@, "/"@ + a.list.search_query@))
            } else {
                s1
            };
            s2.push(PartText::Field("count"@, decimal_text(a.list.visible@.len())))
        },
        Screen::Compare => if a.undo_stack@.len() > 0 {
            seq![type_part, PartText::Field("undo"@, decimal_text(a.undo_stack@.len()))]
        } else {
            seq![type_part]
        },
        Screen::Stats => seq![PartText::Hint("press ? to close"@)],
    };
    match a.last_error {
        Some(e) => base.push(PartText::Error(e@)),
        None => base,
    }
}

fn push_part(parts: &mut Vec<StatePart>, p: StatePart)
    ensures
        part_texts(final(parts)@) == part_texts(old(parts)@).push(p@),
{
    let ghost before = parts@;
    parts.push(p);
    assert(part_texts(parts@) =~= part_texts(before).push(p@));
}

/// Builds the state line for `a` (see [`state_line_of`]).
pub fn state_line(a: &App) -> (out: Vec<StatePart>)
    ensures
        part_texts(out@) == state_line_of(*a),
{
    let mut parts: Vec<StatePart> = Vec::new();
    assert(part_texts(parts@) =~= Seq::<PartText>::empty());
    let type_label = match &a.list.type_filter {
        Some(t) => t.clone(),
        None => String::from_str("all"),
    };
    let ghost type_part = PartText::Field("type"@, filter_label(opt_view(a.list.type_filter)));
    match a.screen {
        Screen::List => {
            push_part(&mut parts, StatePart::Field(String::from_str("type"), type_label));
            push_part(
                &mut parts,
                StatePart::Field(String::from_str("sort"), String::from_str(a.list.sort.label())),
            );
            let ghost s0 = seq![type_part, PartText::Field("sort"@, sort_label(a.list.sort))];
            assert(part_texts(parts@) =~= s0);
            if a.list.pending_only {
                push_part(&mut parts, StatePart::Flag(String::from_str("pending only")));
            }
            let ghost s1 = if a.list.pending_only {
                s0.push(PartText::Flag("pending only"@))
            } else {
                s0
            };
            assert(part_texts(parts@) =~= s1);
            if !a.list.search_query.as_str().is_empty() {
                let mut q = String::from_str("/");
                q.append(a.list.search_query.as_str());
                push_part(&mut parts, StatePart::Highlighted(String::from_str("search"), q));
            }
            let ghost s2 = if a.list.search_query@.len() > 0 {
                s1.push(PartText::Highlighted("search"@, "/"@ + a.list.search_query@))
            } else {
                s1
            };
            assert(part_texts(parts@) =~= s2);
            let count = decimal(a.list.visible.len() as u64);
            push_part(&mut parts, StatePart::Field(String::from_str("count"), count));
        },
        Screen::Compare => {
            push_part(&mut parts, StatePart::Field(String::from_str("type"), type_label));
            if a.undo_stack.len() > 0 {
                let n = decimal(a.undo_stack.len() as u64);
                push_part(&mut parts, StatePart::Field(String::from_str("undo"), n));
            }
        },
        Screen::Stats => {
            push_part(&mut parts, StatePart::Hint(String::from_str("press ? to close")));
        },
    }
    match &a.last_error {
        Some(e) => {
            push_part(&mut parts, StatePart::Error(e.clone()));
        },
        None => {},
    }
    assert(part_texts(parts@) =~= state_line_of(*a));
    parts
}

/// The mark shown beside a row for its status.
#[derive(Clone, Copy, PartialEq, Eq, Structural)]
pub enum StatusMark {
    Done,
    InProgress,
    OnHold,
    Dropped,
    Backlog,
    Unknown,
}

/// The mark for a status text.
pub open spec fn mark_of(status: Seq<char>) -> StatusMark {
    if status == "done"@ {
        StatusMark::Done
    } else if status == "in progress"@ {
        StatusMark::InProgress
    } else if status == "on hold"@ {
        StatusMark::OnHold
    } else if status == "dropped"@ {
        StatusMark::Dropped
    } else if status == "backlog"@ {
        StatusMark::Backlog
    } else {
        StatusMark::Unknown
    }
}

/// The mark for `status` (see [`mark_of`]).
pub fn status_mark(status: &str) -> (m: StatusMark)
    ensures
        m == mark_of(status@),
{
    if crate::text::str_eq(status, "done") {
        StatusMark::Done
    } else if crate::text::str_eq(status, "in progress") {
        StatusMark::InProgress
    } else if crate::text::str_eq(status, "on hold") {
        StatusMark::OnHold
    } else if crate::text::str_eq(status, "dropped") {
        StatusMark::Dropped
    } else if crate::text::str_eq(status, "backlog") {
        StatusMark::Backlog
    } else {
        StatusMark::Unknown
    }
}

/// The number of rows whose type is `t` up to ASCII case.
pub open spec fn usage_count(rows: Seq<Row>, t: Seq<char>) -> nat
    decreases rows.len(),
{
    if rows.len() == 0 {
        0
    } else {
        usage_count(rows.drop_last(), t) + if eq_ascii_ci(rows.last().type_@, t) {
            1nat
        } else {
            0nat
        }
    }
}

/// How many rows use the type `t` (compared up to ASCII case), as the type
/// manager lists it.
pub fn type_usage(rows: &Vec<Row>, t: &str) -> (n: usize)
    ensures
        n == usage_count(rows@, t@),
{
    let mut n: usize = 0;
    let mut i: usize = 0;
    while i < rows.len()
        invariant
            i <= rows.len(),
            n == usage_count(rows@.take(i as int), t@),
            n <= i,
        decreases rows.len() - i,
    {
        assert(rows@.take(i + 1).drop_last() =~= rows@.take(i as int));
        if eq_ignore_ascii_case(rows[i].type_.as_str(), t) {
            n += 1;
        }
        i += 1;
    }
    assert(rows@.take(rows.len() as int) =~= rows@);
    n
}

/// The type manager's height for `type_count` types in an area `area_height`
/// lines high: a line per type (at least one) and six more, no more than
/// the area minus two, and at least eight.
pub open spec fn manager_height(type_count: u16, area_height: u16) -> int {
    let rows = if type_count < 1 {
        1
    } else {
        type_count as int
    };
    let room = if area_height > 2 {
        area_height - 2
    } else {
        0
    };
    let h = if rows + 6 < room {
        rows + 6
    } else {
        room
    };
    if h > 8 {
        h
    } else {
        8
    }
}

/// The type manager's height (see [`manager_height`]).
pub fn type_manager_height(type_count: u16, area_height: u16) -> (h: u16)
    requires
        type_count <= u16::MAX - 6,
    ensures
        h == manager_height(type_count, area_height),
{
    let rows = if type_count < 1 {
        1
    } else {
        type_count
    };
    let room = if area_height > 2 {
        area_height - 2
    } else {
        0
    };
    let h = if rows + 6 < room {
        rows + 6
    } else {
        room
    };
    if h > 8 {
        h
    } else {
        8
    }
}

/// One line of the type manager.
pub enum ManagerLine {
    /// Shown in place of the list when there are no types.
    NoTypes,
    /// A type, the number of rows that use it, and whether it is selected.
    Type(String, usize, bool),
    Blank,
    /// The last error.
    Error(String),
    /// The input line: its label and the text typed so far.
    Input(String, String),
    /// The keys that apply.
    Hint(String),
}

/// The text of a [`ManagerLine`].
pub enum ManagerText {
    NoTypes,
    Type(Seq<char>, nat, bool),
    Blank,
    Error(Seq<char>),
    Input(Seq<char>, Seq<char>),
    Hint(Seq<char>),
}

impl View for ManagerLine {
    type V = ManagerText;

    open spec fn view(&self) -> ManagerText {
        match self {
            ManagerLine::NoTypes => ManagerText::NoTypes,
            ManagerLine::Type(t, n, sel) => ManagerText::Type(t@, *n as nat, *sel),
            ManagerLine::Blank => ManagerText::Blank,
            ManagerLine::Error(e) => ManagerText::Error(e@),
            ManagerLine::Input(l, b) => ManagerText::Input(l@, b@),
            ManagerLine::Hint(h) => ManagerText::Hint(h@),
        }
    }
}

/// The texts of a list of manager lines.
pub open spec fn manager_texts(lines: Seq<ManagerLine>) -> Seq<ManagerText> {
    lines.map_values(|l: ManagerLine| l@)
}

/// The error line, when there is an error.
pub open spec fn error_lines(error: Option<String>) -> Seq<ManagerText> {
    match error {
        Some(e) => seq![ManagerText::Error(e@)],
        None => Seq::empty(),
    }
}

/// The lines under the list while a name is typed.
pub open spec fn input_lines(label: Seq<char>, m: TypeManagerModal) -> Seq<ManagerText> {
    seq![ManagerText::Input(label, m.buffer@)] + error_lines(m.error) + seq![
        ManagerText::Blank,
        ManagerText::Hint("Enter save  Esc back"@),
    ]
}

/// The type manager's lines: each type with the number of rows that use it
/// (the one under the cursor selected while browsing), or a note that there
/// are none; a blank line; then, while browsing, the last error and a blank
/// line if there is an error, and the keys; while typing a name, the input
/// line, the last error if any, a blank line and the keys.
pub open spec fn manager_lines_of(rows: Seq<Row>, types: Seq<String>, m: TypeManagerModal) -> Seq<ManagerText> {
    let list = if types.len() == 0 {
        seq![ManagerText::NoTypes]
    } else {
        Seq::new(
            types.len(),
            |i: int|
                ManagerText::Type(
                    types[i]@,
                    usage_count(rows, types[i]@),
                    i == m.cursor && m.mode == TypeManagerMode::Browse,
                ),
        )
    };
    let tail = match m.mode {
        TypeManagerMode::Browse => (match m.error {
            Some(e) => seq![ManagerText::Error(e@), ManagerText::Blank],
            None => Seq::empty(),
        }) + seq![ManagerText::Hint("a add  r rename  x delete  K/J reorder  Esc close"@)],
        TypeManagerMode::AddInput => input_lines("New"@, m),
        TypeManagerMode::RenameInput => input_lines("Rename to"@, m),
    };
    list + seq![ManagerText::Blank] + tail
}

fn push_line(lines: &mut Vec<ManagerLine>, l: ManagerLine)
    ensures
        manager_texts(final(lines)@) == manager_texts(old(lines)@).push(l@),
{
    let ghost before = lines@;
    lines.push(l);
    assert(manager_texts(lines@) =~= manager_texts(before).push(l@));
}

fn push_input_lines(lines: &mut Vec<ManagerLine>, label: &str, m: &TypeManagerModal)
    ensures
        manager_texts(final(lines)@) == manager_texts(old(lines)@) + input_lines(label@, *m),
{
    let ghost before = manager_texts(lines@);
    push_line(lines, ManagerLine::Input(String::from_str(label), m.buffer.clone()));
    match &m.error {
        Some(e) => {
            push_line(lines, ManagerLine::Error(e.clone()));
        },
        None => {},
    }
    push_line(lines, ManagerLine::Blank);
    push_line(lines, ManagerLine::Hint(String::from_str("Enter save  Esc back")));
    assert(manager_texts(lines@) =~= before + input_lines(label@, *m));
}

/// Builds the type manager's lines (see [`manager_lines_of`]).
pub fn manager_lines(rows: &Vec<Row>, types: &Vec<String>, m: &TypeManagerModal) -> (out: Vec<ManagerLine>)
    ensures
        manager_texts(out@) == manager_lines_of(rows@, types@, *m),
{
    let mut lines: Vec<ManagerLine> = Vec::new();
    let ghost list = if types@.len() == 0 {
        seq![ManagerText::NoTypes]
    } else {
        Seq::new(
            types@.len(),
            |i: int|
                ManagerText::Type(
                    types@[i]@,
                    usage_count(rows@, types@[i]@),
                    i == m.cursor && m.mode == TypeManagerMode::Browse,
                ),
        )
    };
    if types.len() == 0 {
        push_line(&mut lines, ManagerLine::NoTypes);
        assert(manager_texts(lines@) =~= list);
    } else {
        let mut i: usize = 0;
        while i < types.len()
            invariant
                i <= types.len(),
                types@.len() > 0,
                list == Seq::new(
                    types@.len(),
                    |i: int|
                        ManagerText::Type(
                            types@[i]@,
                            usage_count(rows@, types@[i]@),
                            i == m.cursor && m.mode == TypeManagerMode::Browse,
                        ),
                ),
                manager_texts(lines@) =~= list.take(i as int),
            decreases types.len() - i,
        {
            let n = type_usage(rows, types[i].as_str());
            let selected = i == m.cursor && m.mode == TypeManagerMode::Browse;
            push_line(&mut lines, ManagerLine::Type(types[i].clone(), n, selected));
            i += 1;
            assert(manager_texts(lines@) =~= list.take(i as int));
        }
        assert(list.take(types.len() as int) =~= list);
    }
    push_line(&mut lines, ManagerLine::Blank);
    let ghost head = manager_texts(lines@);
    assert(head == list + seq![ManagerText::Blank]);
    match m.mode {
        TypeManagerMode::Browse => {
            match &m.error {
                Some(e) => {
                    push_line(&mut lines, ManagerLine::Error(e.clone()));
                    push_line(&mut lines, ManagerLine::Blank);
                },
                None => {},
            }
            push_line(
                &mut lines,
                ManagerLine::Hint(String::from_str("a add  r rename  x delete  K/J reorder  Esc close")),
            );
        },
        TypeManagerMode::AddInput => {
            push_input_lines(&mut lines, "New", m);
        },
        TypeManagerMode::RenameInput => {
            push_input_lines(&mut lines, "Rename to", m);
        },
    }
    assert(manager_texts(lines@) =~= manager_lines_of(rows@, types@, *m));
    lines
}

/// One line of the compare box.
pub enum CompareLine {
    /// The pair's type (empty when there is no pair).
    Type(String),
    Blank,
    /// A numbered entry: its number, its title and, for an entry of the
    /// pair, its match count.
    Entry(String, String, Option<u32>),
    /// The line between the two entries.
    Versus,
}

/// The text of a [`CompareLine`].
pub enum CompareText {
    Type(Seq<char>),
    Blank,
    Entry(Seq<char>, Seq<char>, Option<u32>),
    Versus,
}

impl View for CompareLine {
    type V = CompareText;

    open spec fn view(&self) -> CompareText {
        match self {
            CompareLine::Type(t) => CompareText::Type(t@),
            CompareLine::Blank => CompareText::Blank,
            CompareLine::Entry(n, t, m) => CompareText::Entry(n@, t@, *m),
            CompareLine::Versus => CompareText::Versus,
        }
    }
}

/// The texts of a list of compare lines.
pub open spec fn compare_texts(lines: Seq<CompareLine>) -> Seq<CompareText> {
    lines.map_values(|l: CompareLine| l@)
}

/// The compare box's lines: when both rows of the pair on show are found,
/// the first one's type, a blank line, "1." with its title and matches,
/// "vs", and "2." with the second's; else an empty type line, a blank line,
/// "1." with a note that there are not enough entries, "vs" and a blank
/// line.
pub open spec fn compare_lines_of(a: App) -> Seq<CompareText> {
    match a.compare.current_pair {
        Some((ai, bi)) if row_position(a.rows@, ai) is Some && row_position(a.rows@, bi) is Some => {
            let ra = a.rows@[row_position(a.rows@, ai)->0];
            let rb = a.rows@[row_position(a.rows@, bi)->0];
            seq![
                CompareText::Type(ra.type_@),
                CompareText::Blank,
                CompareText::Entry("1"@, ra.title@, Some(ra.matches)),
                CompareText::Versus,
                CompareText::Entry("2"@, rb.title@, Some(rb.matches)),
            ]
        },
        _ => seq![
            CompareText::Type(Seq::empty()),
            CompareText::Blank,
            CompareText::Entry("1"@, "Not enough entries to compare."@, None),
            CompareText::Versus,
            CompareText::Blank,
        ],
    }
}

/// Each entry line of the compare box that shows a match count shows the
/// title and the match count of one and the same row: the first entry's
/// row is the one with the pair's first id, the second entry's the one
/// with its second id. Both entries show a row exactly when both rows of
/// the pair are found.
pub proof fn lemma_compare_entries_match_rows(a: App)
    ensures
        forall|k: int|
            0 <= k < compare_lines_of(a).len() ==> (#[trigger] compare_lines_of(a)[k] matches CompareText::Entry(
                n,
                t,
                Some(m),
            ) ==> {
                &&& a.compare.current_pair is Some
                &&& (n == "1"@ || n == "2"@)
                &&& {
                    let pair = a.compare.current_pair->0;
                    let id = if n == "1"@ {
                        pair.0
                    } else {
                        pair.1
                    };
                    &&& row_position(a.rows@, id) is Some
                    &&& a.rows@[row_position(a.rows@, id)->0].title@ == t
                    &&& a.rows@[row_position(a.rows@, id)->0].matches == m
                }
            }),
        ({
            let lines = compare_lines_of(a);
            let first = a.compare.current_pair->0;
            let found = a.compare.current_pair matches Some(p) && row_position(a.rows@, p.0) is Some
                && row_position(a.rows@, p.1) is Some;
            &&& (lines[2] matches CompareText::Entry(_, _, Some(_))) == found
            &&& (lines[4] matches CompareText::Entry(_, _, Some(_))) == found
            &&& found ==> lines[0] == CompareText::Type(
                a.rows@[row_position(a.rows@, first.0)->0].type_@,
            )
        }),
{
    reveal_strlit("1");
    reveal_strlit("2");
    assert("1"@ != "2"@) by {
        assert("1"@[0] != "2"@[0]);
    }
}

/// Builds the compare box's lines (see [`compare_lines_of`]).
pub fn compare_lines(a: &App) -> (out: Vec<CompareLine>)
    ensures
        compare_texts(out@) == compare_lines_of(*a),
{
    let found = match a.compare.current_pair {
        Some((ai, bi)) => match (a.row_idx_by_id(ai), a.row_idx_by_id(bi)) {
            (Some(i), Some(j)) => Some((i, j)),
            _ => None,
        },
        None => None,
    };
    let mut out: Vec<CompareLine> = Vec::new();
    match found {
        Some((i, j)) => {
            proof {
                let (ai, bi) = a.compare.current_pair->0;
                crate::app::lemma_row_position(a.rows@, ai);
                crate::app::lemma_row_position(a.rows@, bi);
            }
            let ra = &a.rows[i];
            let rb = &a.rows[j];
            out.push(CompareLine::Type(ra.type_.clone()));
            out.push(CompareLine::Blank);
            out.push(CompareLine::Entry(String::from_str("1"), ra.title.clone(), Some(ra.matches)));
            out.push(CompareLine::Versus);
            out.push(CompareLine::Entry(String::from_str("2"), rb.title.clone(), Some(rb.matches)));
        },
        None => {
            out.push(CompareLine::Type(String::new()));
            out.push(CompareLine::Blank);
            out.push(
                CompareLine::Entry(
                    String::from_str("1"),
                    String::from_str("Not enough entries to compare."),
                    None,
                ),
            );
            out.push(CompareLine::Versus);
            out.push(CompareLine::Blank);
        },
    }
    assert(compare_texts(out@) =~= compare_lines_of(*a));
    out
}

} // verus!
