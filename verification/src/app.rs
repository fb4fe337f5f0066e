//! The client's state and every decision it takes between server calls: the
//! list and its filters, the forms, the type manager, voting and undo.
//!
//! Operations that need a server call come in two parts: a
//! plan that decides whether and what to send, and an `_applied` step that
//! takes the server's answer.

use vstd::prelude::*;
use vstd::string::StringExecFns;
use crate::forms::{
    AddModal, EditModal, TypeManagerModal, TypeManagerMode, is_blank_add_form, is_edit_form_for,
    pop_char,
};
use crate::listing::{ListState, SortMode, lemma_sorted_unique, opt_view, row_shown, shows_exactly, sort_after, visible_rows};
use crate::model::{Row, STATUS_COUNT, MAX_TYPE_LEN, lemma_status_names, rankable, status_name, status_at, is_rankable};
use crate::pairer::{HISTORY_SIZE, Pairer, pair_key, remembered};
use crate::text::{char_count, eq_ascii_ci, eq_ignore_ascii_case, join3, push_char, trim, trim_string};

verus! {

/// The three screens.
#[derive(Clone, Copy, PartialEq, Eq, Structural)]
pub enum Screen {
    List,
    Compare,
    Stats,
}

/// What a confirmation dialog confirms.
#[derive(Clone, Copy, PartialEq, Eq, Structural)]
pub enum ConfirmAction {
    DeleteRow(u128),
}

/// A yes/no question.
pub struct ConfirmModal {
    pub message: String,
    pub action: ConfirmAction,
}

/// The dialog on top of the screen, if any.
pub enum Modal {
    Hidden,
    Add(AddModal),
    Edit(EditModal),
    Confirm(ConfirmModal),
    TypeManager(TypeManagerModal),
}

/// The outcome of the last vote, for display. Deltas are Elo keys (see
/// [`Row`]).
pub struct VoteResult {
    pub winner_title: String,
    pub loser_title: String,
    pub delta_w: u64,
    pub delta_l: u64,
}

/// The compare screen's state: the pair on show and the last vote's outcome.
pub struct CompareState {
    pub current_pair: Option<(u128, u128)>,
    pub last_result: Option<VoteResult>,
}

/// What a vote changed, so that it can be taken back.
#[derive(Clone, Copy, PartialEq, Eq, Structural)]
pub struct UndoEntry {
    pub a_id: u128,
    pub b_id: u128,
    pub old_elo_a: u64,
    pub old_elo_b: u64,
    pub old_matches_a: u32,
    pub old_matches_b: u32,
}

/// The client's state.
pub struct App {
    pub pairer: Pairer,
    pub rows: Vec<Row>,
    pub types: Vec<String>,
    pub screen: Screen,
    pub modal: Modal,
    pub list: ListState,
    pub compare: CompareState,
    pub undo_stack: Vec<UndoEntry>,
    pub show_help: bool,
    pub stats_scroll: u16,
    pub stats_content_height: u16,
    pub last_error: Option<String>,
    pub should_quit: bool,
}

/// The texts of a list of strings.
pub open spec fn views(s: Seq<String>) -> Seq<Seq<char>> {
    s.map_values(|x: String| x@)
}

/// The first position in `s` of a text that satisfies `p`.
pub open spec fn first_where(s: Seq<Seq<char>>, p: spec_fn(Seq<char>) -> bool) -> Option<int>
    decreases s.len(),
{
    if s.len() == 0 {
        None
    } else {
        match first_where(s.drop_last(), p) {
            Some(i) => Some(i),
            None => if p(s.last()) {
                Some(s.len() - 1)
            } else {
                None
            },
        }
    }
}

/// Some text of `s` satisfies `p`.
pub open spec fn any_where(s: Seq<Seq<char>>, p: spec_fn(Seq<char>) -> bool) -> bool {
    exists|i: int| 0 <= i < s.len() && #[trigger] p(s[i])
}

pub(crate) proof fn lemma_first_where(s: Seq<Seq<char>>, p: spec_fn(Seq<char>) -> bool)
    ensures
        first_where(s, p) matches Some(i) ==> 0 <= i < s.len() && p(s[i]) && forall|j: int|
            0 <= j < i ==> !p(#[trigger] s[j]),
        first_where(s, p) is None <==> !any_where(s, p),
    decreases s.len(),
{
    if s.len() > 0 {
        lemma_first_where(s.drop_last(), p);
        if first_where(s.drop_last(), p) is None {
            assert forall|j: int| 0 <= j < s.len() - 1 implies !p(#[trigger] s[j]) by {
                assert(s.drop_last()[j] == s[j]);
                if p(s[j]) {
                    assert(p(s.drop_last()[j]));
                }
            }
        }
        if any_where(s, p) && first_where(s.drop_last(), p) is None {
            let i = choose|i: int| 0 <= i < s.len() && #[trigger] p(s[i]);
            if i < s.len() - 1 {
                assert(p(s.drop_last()[i]));
            }
        }
        if first_where(s.drop_last(), p) is Some {
            let i = first_where(s.drop_last(), p)->0;
            assert(s.drop_last()[i] == s[i]);
            assert forall|j: int| 0 <= j < i implies !p(#[trigger] s[j]) by {
                assert(s.drop_last()[j] == s[j]);
            }
        }
        if any_where(s.drop_last(), p) {
            let i = choose|i: int| 0 <= i < s.drop_last().len() && #[trigger] p(s.drop_last()[i]);
            assert(s.drop_last()[i] == s[i]);
        }
    }
}

proof fn lemma_first_where_prefix(s: Seq<Seq<char>>, p: spec_fn(Seq<char>) -> bool, k: int)
    requires
        0 <= k <= s.len(),
        first_where(s.take(k), p) is Some,
    ensures
        first_where(s, p) == first_where(s.take(k), p),
    decreases s.len(),
{
    if k < s.len() {
        assert(s.drop_last().take(k) =~= s.take(k));
        lemma_first_where_prefix(s.drop_last(), p, k);
    } else {
        assert(s.take(k) =~= s);
    }
}

/// No text of `s` equals `t` exactly when the search for it finds none.
pub(crate) proof fn lemma_first_where_contains(s: Seq<Seq<char>>, t: Seq<char>)
    ensures
        first_where(s, same_text(t)) is None <==> !s.contains(t),
{
    lemma_first_where(s, same_text(t));
    if s.contains(t) {
        let k = choose|k: int| 0 <= k < s.len() && s[k] == t;
        assert((same_text(t))(s[k]));
    }
    if any_where(s, same_text(t)) {
        let k = choose|k: int| 0 <= k < s.len() && #[trigger] (same_text(t))(s[k]);
        assert(s[k] == t);
    }
}

/// Matches texts equal to `t` up to ASCII case.
pub open spec fn same_ci(t: Seq<char>) -> spec_fn(Seq<char>) -> bool {
    |x: Seq<char>| eq_ascii_ci(x, t)
}

/// Matches texts equal to `t`.
pub open spec fn same_text(t: Seq<char>) -> spec_fn(Seq<char>) -> bool {
    |x: Seq<char>| x == t
}

/// The first position of a type equal to `name` up to ASCII case.
pub fn find_ci(types: &Vec<String>, name: &str) -> (res: Option<usize>)
    ensures
        res matches Some(i) ==> first_where(views(types@), same_ci(name@)) == Some(i as int),
        res is None ==> first_where(views(types@), same_ci(name@)) is None,
{
    let ghost s = views(types@);
    let mut i: usize = 0;
    while i < types.len()
        invariant
            i <= types.len(),
            s == views(types@),
            first_where(s.take(i as int), same_ci(name@)) is None,
        decreases types.len() - i,
    {
        assert(s.take(i + 1).drop_last() =~= s.take(i as int));
        if eq_ignore_ascii_case(types[i].as_str(), name) {
            proof {
                assert(s.take(i + 1).last() == types@[i as int]@);
                lemma_first_where_prefix(s, same_ci(name@), i + 1);
            }
            return Some(i);
        }
        i += 1;
    }
    assert(s.take(types.len() as int) =~= s);
    None
}

/// Whether some type equals `name` up to ASCII case.
pub fn any_ci(types: &Vec<String>, name: &str) -> (b: bool)
    ensures
        b == any_where(views(types@), same_ci(name@)),
{
    let found = find_ci(types, name);
    proof {
        lemma_first_where(views(types@), same_ci(name@));
    }
    found.is_some()
}

/// The first position of a type named exactly `name`.
pub fn find_text(types: &Vec<String>, name: &String) -> (res: Option<usize>)
    ensures
        res matches Some(i) ==> first_where(views(types@), same_text(name@)) == Some(i as int),
        res is None ==> first_where(views(types@), same_text(name@)) is None,
{
    let ghost s = views(types@);
    let mut i: usize = 0;
    while i < types.len()
        invariant
            i <= types.len(),
            s == views(types@),
            first_where(s.take(i as int), same_text(name@)) is None,
        decreases types.len() - i,
    {
        assert(s.take(i + 1).drop_last() =~= s.take(i as int));
        if types[i] == *name {
            proof {
                assert(s.take(i + 1).last() == types@[i as int]@);
                lemma_first_where_prefix(s, same_text(name@), i + 1);
            }
            return Some(i);
        }
        i += 1;
    }
    assert(s.take(types.len() as int) =~= s);
    None
}

/// `cursor` pulled back inside a list of `len` entries (to 0 when empty).
pub open spec fn clamp_cursor(cursor: usize, len: nat) -> usize {
    if cursor >= len {
        if len == 0 {
            0
        } else {
            (len - 1) as usize
        }
    } else {
        cursor
    }
}

/// The first row with id `id`.
pub open spec fn row_position(rows: Seq<Row>, id: u128) -> Option<int>
    decreases rows.len(),
{
    if rows.len() == 0 {
        None
    } else {
        match row_position(rows.drop_last(), id) {
            Some(i) => Some(i),
            None => if rows.last().id == id {
                Some(rows.len() - 1)
            } else {
                None
            },
        }
    }
}

pub(crate) proof fn lemma_row_position(rows: Seq<Row>, id: u128)
    ensures
        row_position(rows, id) matches Some(i) ==> 0 <= i < rows.len() && rows[i].id == id,
    decreases rows.len(),
{
    if rows.len() > 0 {
        lemma_row_position(rows.drop_last(), id);
        if row_position(rows.drop_last(), id) is Some {
            let i = row_position(rows.drop_last(), id)->0;
            assert(rows.drop_last()[i] == rows[i]);
        }
    }
}

proof fn lemma_row_position_prefix(rows: Seq<Row>, id: u128, k: int)
    requires
        0 <= k <= rows.len(),
        row_position(rows.take(k), id) is Some,
    ensures
        row_position(rows, id) == row_position(rows.take(k), id),
    decreases rows.len(),
{
    if k < rows.len() {
        assert(rows.drop_last().take(k) =~= rows.take(k));
        lemma_row_position_prefix(rows.drop_last(), id, k);
    } else {
        assert(rows.take(k) =~= rows);
    }
}

/// `rows` with the first row of `r`'s id replaced by `r`.
pub open spec fn replaced(rows: Seq<Row>, r: Row) -> Seq<Row> {
    match row_position(rows, r.id) {
        Some(i) => rows.update(i, r),
        None => rows,
    }
}

/// Types that some row uses, in `types` order, each once.
pub open spec fn used_types(types: Seq<Seq<char>>, rows: Seq<Row>) -> Seq<Seq<char>>
    decreases types.len(),
{
    if types.len() == 0 {
        Seq::empty()
    } else {
        let acc = used_types(types.drop_last(), rows);
        let t = types.last();
        if !acc.contains(t) && exists|i: int| 0 <= i < rows.len() && #[trigger] rows[i].type_@ == t {
            acc.push(t)
        } else {
            acc
        }
    }
}

/// `acc` followed by the types of `rows` not yet in it, in row order, each once.
pub open spec fn with_row_types(acc: Seq<Seq<char>>, rows: Seq<Row>) -> Seq<Seq<char>>
    decreases rows.len(),
{
    if rows.len() == 0 {
        acc
    } else {
        let a = with_row_types(acc, rows.drop_last());
        let t = rows.last().type_@;
        if !a.contains(t) {
            a.push(t)
        } else {
            a
        }
    }
}

/// The types to cycle through on the list screen: the known types that rows
/// use, in catalogue order, then types that rows use but the catalogue lacks.
pub open spec fn available_types_of(types: Seq<Seq<char>>, rows: Seq<Row>) -> Seq<Seq<char>> {
    with_row_types(used_types(types, rows), rows)
}

/// The type filter after cycling forward or backward through `avail`: from
/// no filter (or an unknown one) to the first or last type; from a type to
/// its neighbour; past either end back to no filter.
pub open spec fn cycled_filter(avail: Seq<Seq<char>>, cur: Option<Seq<char>>, forward: bool) -> Option<Seq<char>> {
    let edge = if forward {
        avail[0]
    } else {
        avail.last()
    };
    match cur {
        None => Some(edge),
        Some(c) => match first_where(avail, same_text(c)) {
            None => Some(edge),
            Some(i) => if forward {
                if i + 1 >= avail.len() {
                    None
                } else {
                    Some(avail[i + 1])
                }
            } else {
                if i == 0 {
                    None
                } else {
                    Some(avail[i - 1])
                }
            },
        },
    }
}

proof fn lemma_used_types_distinct(types: Seq<Seq<char>>, rows: Seq<Row>)
    ensures
        used_types(types, rows).no_duplicates(),
    decreases types.len(),
{
    if types.len() > 0 {
        lemma_used_types_distinct(types.drop_last(), rows);
    }
}

proof fn lemma_with_row_types_distinct(acc: Seq<Seq<char>>, rows: Seq<Row>)
    requires
        acc.no_duplicates(),
    ensures
        with_row_types(acc, rows).no_duplicates(),
    decreases rows.len(),
{
    if rows.len() > 0 {
        lemma_with_row_types_distinct(acc, rows.drop_last());
    }
}

/// The types on offer to the type filter are listed once each.
pub proof fn lemma_available_types_distinct(types: Seq<Seq<char>>, rows: Seq<Row>)
    ensures
        available_types_of(types, rows).no_duplicates(),
{
    lemma_used_types_distinct(types, rows);
    lemma_with_row_types_distinct(used_types(types, rows), rows);
}

/// Some row of `rows` has type `t`.
pub open spec fn has_type(rows: Seq<Row>, t: Seq<char>) -> bool {
    exists|i: int| 0 <= i < rows.len() && #[trigger] rows[i].type_@ == t
}

proof fn lemma_used_types_used(types: Seq<Seq<char>>, rows: Seq<Row>)
    ensures
        forall|x: Seq<char>| #[trigger] used_types(types, rows).contains(x) ==> has_type(rows, x),
    decreases types.len(),
{
    if types.len() > 0 {
        lemma_used_types_used(types.drop_last(), rows);
        let acc = used_types(types.drop_last(), rows);
        assert forall|x: Seq<char>| #[trigger] used_types(types, rows).contains(x) implies has_type(rows, x) by {
            if !acc.contains(x) {
                let k = choose|k: int| 0 <= k < used_types(types, rows).len() && used_types(types, rows)[k] == x;
                assert(k == acc.len());
            }
        }
    }
}

proof fn lemma_with_row_types_cover(acc: Seq<Seq<char>>, rows: Seq<Row>)
    ensures
        forall|x: Seq<char>| acc.contains(x) ==> #[trigger] with_row_types(acc, rows).contains(x),
        forall|i: int| 0 <= i < rows.len() ==> with_row_types(acc, rows).contains(#[trigger] rows[i].type_@),
        forall|x: Seq<char>|
            #[trigger] with_row_types(acc, rows).contains(x) ==> acc.contains(x) || has_type(rows, x),
    decreases rows.len(),
{
    if rows.len() > 0 {
        let prev = rows.drop_last();
        lemma_with_row_types_cover(acc, prev);
        let a = with_row_types(acc, prev);
        let t = rows.last().type_@;
        let w = with_row_types(acc, rows);
        assert(w == if !a.contains(t) { a.push(t) } else { a });
        assert forall|x: Seq<char>| a.contains(x) implies #[trigger] w.contains(x) by {
            let k = choose|k: int| 0 <= k < a.len() && a[k] == x;
            assert(w[k] == x);
        }
        assert forall|i: int| 0 <= i < rows.len() implies w.contains(#[trigger] rows[i].type_@) by {
            if i < rows.len() - 1 {
                assert(prev[i] == rows[i]);
                assert(a.contains(prev[i].type_@));
            } else if !a.contains(t) {
                assert(w[a.len() as int] == t);
            }
        }
        assert forall|x: Seq<char>| #[trigger] w.contains(x) implies acc.contains(x) || has_type(rows, x) by {
            if a.contains(x) {
                if !acc.contains(x) {
                    let i = choose|i: int| 0 <= i < prev.len() && #[trigger] prev[i].type_@ == x;
                    assert(rows[i] == prev[i]);
                }
            } else {
                let k = choose|k: int| 0 <= k < w.len() && w[k] == x;
                assert(k == a.len());
                assert(rows[rows.len() - 1].type_@ == x);
            }
        }
    }
}

/// The types on offer to the type filter are exactly the types that rows
/// have, including types missing from the catalogue.
pub proof fn lemma_available_types_cover(types: Seq<Seq<char>>, rows: Seq<Row>)
    ensures
        forall|i: int| 0 <= i < rows.len() ==> available_types_of(types, rows).contains(#[trigger] rows[i].type_@),
        forall|x: Seq<char>| #[trigger] available_types_of(types, rows).contains(x) ==> has_type(rows, x),
{
    lemma_used_types_used(types, rows);
    lemma_with_row_types_cover(used_types(types, rows), rows);
}

proof fn lemma_position_distinct(avail: Seq<Seq<char>>, k: int)
    requires
        avail.no_duplicates(),
        0 <= k < avail.len(),
    ensures
        first_where(avail, same_text(avail[k])) == Some(k),
{
    lemma_first_where(avail, same_text(avail[k]));
    assert((same_text(avail[k]))(avail[k]));
    if first_where(avail, same_text(avail[k])) is None {
        assert(any_where(avail, same_text(avail[k])));
    }
}

/// The type filter after `n` cycling steps in one direction from `cur`.
pub open spec fn filter_after(avail: Seq<Seq<char>>, cur: Option<Seq<char>>, forward: bool, n: nat) -> Option<Seq<char>>
    decreases n,
{
    if n == 0 {
        cur
    } else {
        cycled_filter(avail, filter_after(avail, cur, forward, (n - 1) as nat), forward)
    }
}

/// Cycling from no filter walks the types on offer in order: forward, the
/// `k`-th step gives the `k`-th type; backward, the `k`-th type from the
/// end; one step past the last type gives no filter again.
pub proof fn lemma_cycle_walk(avail: Seq<Seq<char>>, forward: bool, k: nat)
    requires
        avail.len() > 0,
        avail.no_duplicates(),
        1 <= k <= avail.len() + 1,
    ensures
        filter_after(avail, None, forward, k) == if k <= avail.len() {
            Some(
                if forward {
                    avail[k - 1]
                } else {
                    avail[avail.len() - k]
                },
            )
        } else {
            None::<Seq<char>>
        },
    decreases k,
{
    assert(filter_after(avail, None, forward, 0) == None::<Seq<char>>);
    if k > 1 {
        lemma_cycle_walk(avail, forward, (k - 1) as nat);
        let idx = if forward {
            k - 2
        } else {
            avail.len() - (k - 1)
        };
        lemma_position_distinct(avail, idx);
    }
}

/// Cycling the type filter backward and then forward restores it, when it
/// was none or one of the types on offer (which hold no repeats).
pub proof fn lemma_cycle_type_round_trip_back(avail: Seq<Seq<char>>, cur: Option<Seq<char>>)
    requires
        avail.len() > 0,
        avail.no_duplicates(),
        cur matches Some(c) ==> avail.contains(c),
    ensures
        cycled_filter(avail, cycled_filter(avail, cur, false), true) == cur,
{
    lemma_position_distinct(avail, avail.len() - 1);
    lemma_position_distinct(avail, 0);
    match cur {
        None => {},
        Some(c) => {
            let k = choose|k: int| 0 <= k < avail.len() && avail[k] == c;
            lemma_position_distinct(avail, k);
            if k > 0 {
                lemma_position_distinct(avail, k - 1);
            }
        },
    }
}

/// Cycling the type filter forward and then backward restores it, when it
/// was none or one of the available types (which hold no repeats).
pub proof fn lemma_cycle_type_round_trip(avail: Seq<Seq<char>>, cur: Option<Seq<char>>)
    requires
        avail.len() > 0,
        avail.no_duplicates(),
        cur matches Some(c) ==> avail.contains(c),
    ensures
        cycled_filter(avail, cycled_filter(avail, cur, true), false) == cur,
{
    lemma_first_where(avail, same_text(avail[0]));
    match cur {
        None => {
            assert((same_text(avail[0]))(avail[0]));
        },
        Some(c) => {
            lemma_first_where(avail, same_text(c));
            let i = first_where(avail, same_text(c))->0;
            assert(first_where(avail, same_text(c)) is Some) by {
                let k = choose|k: int| 0 <= k < avail.len() && avail[k] == c;
                assert((same_text(c))(avail[k]));
            }
            if i + 1 < avail.len() {
                let n = avail[i + 1];
                lemma_first_where(avail, same_text(n));
                assert((same_text(n))(avail[i + 1]));
                let j = first_where(avail, same_text(n))->0;
                assert(avail[j] == n);
            } else {
                lemma_first_where(avail, same_text(avail.last()));
                assert((same_text(avail.last()))(avail[avail.len() - 1]));
                let j = first_where(avail, same_text(avail.last()))->0;
                assert(avail[j] == avail[avail.len() - 1]);
            }
        },
    }
}

impl App {
    /// The state's invariant: shown indices point at rows, and the open
    /// form's status is one of the statuses.
    pub open spec fn wf(self) -> bool {
        &&& forall|k: int|
            0 <= k < self.list.visible@.len() ==> #[trigger] self.list.visible@[k] < self.rows@.len()
        &&& (self.modal matches Modal::Add(m) ==> m.status_idx < STATUS_COUNT)
        &&& (self.modal matches Modal::Edit(m) ==> m.status_idx < STATUS_COUNT)
    }

    /// Tests the state's invariant (see [`App::wf`]), for callers that change
    /// the state's fields themselves.
    pub fn holds_invariant(&self) -> (b: bool)
        ensures
            b == self.wf(),
    {
        let mut i: usize = 0;
        while i < self.list.visible.len()
            invariant
                i <= self.list.visible.len(),
                forall|k: int| 0 <= k < i ==> #[trigger] self.list.visible@[k] < self.rows@.len(),
            decreases self.list.visible.len() - i,
        {
            if self.list.visible[i] >= self.rows.len() {
                return false;
            }
            i += 1;
        }
        match &self.modal {
            Modal::Add(m) => m.status_idx < STATUS_COUNT,
            Modal::Edit(m) => m.status_idx < STATUS_COUNT,
            _ => true,
        }
    }

    /// `self` is `pre` with the list recomputed for `pre`'s rows and filters
    /// and the cursor pulled back inside it.
    pub open spec fn refreshed_from(self, pre: App) -> bool {
        &&& shows_exactly(pre.rows@, pre.list, self.list.visible@)
        &&& self.list.cursor == clamp_cursor(pre.list.cursor, self.list.visible@.len())
        &&& self == App {
            list: ListState { visible: self.list.visible, cursor: self.list.cursor, ..pre.list },
            ..pre
        }
    }

    /// A client showing `rows` and `types` on the list screen, with no
    /// filter, no dialog and nothing to undo.
    pub fn with_data(pairer: Pairer, rows: Vec<Row>, types: Vec<String>) -> (app: App)
        ensures
            app.wf(),
            app.rows@ == rows@,
            app.types@ == types@,
            app.screen == Screen::List,
            app.modal is Hidden,
            app.undo_stack@.len() == 0,
            app.compare.current_pair is None,
            app.compare.last_result is None,
            !app.show_help,
            app.stats_scroll == 0,
            app.last_error is None,
            !app.should_quit,
            app.list.cursor == 0,
            shows_exactly(rows@, app.list, app.list.visible@),
            app.list.search_query@.len() == 0,
            !app.list.search_active,
            !app.list.pending_only,
            app.list.type_filter is None,
            app.list.sort == SortMode::Default,
    {
        let mut app = App {
            pairer,
            rows,
            types,
            screen: Screen::List,
            modal: Modal::Hidden,
            list: ListState::default(),
            compare: CompareState { current_pair: None, last_result: None },
            undo_stack: Vec::new(),
            show_help: false,
            stats_scroll: 0,
            stats_content_height: 0,
            last_error: None,
            should_quit: false,
        };
        app.refresh_list();
        app
    }

    /// Recomputes the shown rows and pulls the cursor inside them.
    pub fn refresh_list(&mut self)
        ensures
            final(self).refreshed_from(*old(self)),
            old(self).wf() ==> final(self).wf(),
    {
        let visible = visible_rows(&self.rows, &self.list);
        self.list.visible = visible;
        if self.list.cursor >= self.list.visible.len() {
            self.list.cursor = if self.list.visible.len() == 0 {
                0
            } else {
                self.list.visible.len() - 1
            };
        }
    }

    /// Asks the client to stop.
    pub fn quit_app(&mut self)
        ensures
            quit_app_done(*old(self), *final(self)),
    {
        self.should_quit = true;
    }

    /// Notes how a server call labelled `label` went: a success clears the
    /// last error; a failure with message `error` shows `label: error`.
    pub fn record_outcome(&mut self, label: &str, error: Option<String>)
        ensures
            match error {
                None => final(self).last_error is None,
                Some(e) => final(self).last_error matches Some(m) && m@ == label@ + ": "@ + e@,
            },
            *final(self) == (App { last_error: final(self).last_error, ..*old(self) }),
            old(self).wf() ==> final(self).wf(),
    {
        self.last_error = match error {
            None => None,
            Some(e) => Some(join3(label, ": ", e.as_str())),
        };
    }

    /// The position of the row with id `id`.
    pub fn row_idx_by_id(&self, id: u128) -> (res: Option<usize>)
        ensures
            res matches Some(i) ==> row_position(self.rows@, id) == Some(i as int),
            res is None ==> row_position(self.rows@, id) is None,
    {
        let mut i: usize = 0;
        while i < self.rows.len()
            invariant
                i <= self.rows.len(),
                row_position(self.rows@.take(i as int), id) is None,
            decreases self.rows.len() - i,
        {
            assert(self.rows@.take(i + 1).drop_last() =~= self.rows@.take(i as int));
            if self.rows[i].id == id {
                proof {
                    lemma_row_position_prefix(self.rows@, id, i + 1);
                }
                return Some(i);
            }
            i += 1;
        }
        assert(self.rows@.take(self.rows.len() as int) =~= self.rows@);
        None
    }

    /// Puts `updated` in place of the row with the same id, if there is one.
    pub fn replace_row(&mut self, updated: Row)
        ensures
            final(self).rows@ == replaced(old(self).rows@, updated),
            *final(self) == (App { rows: final(self).rows, ..*old(self) }),
            old(self).wf() ==> final(self).wf(),
    {
        proof {
            lemma_row_position(self.rows@, updated.id);
        }
        match self.row_idx_by_id(updated.id) {
            Some(i) => {
                self.rows.set(i, updated);
            },
            None => {},
        }
    }

    /// The row under the list cursor.
    pub fn current_row_idx(&self) -> (res: Option<usize>)
        ensures
            res == (if self.list.cursor < self.list.visible@.len() {
                Some(self.list.visible@[self.list.cursor as int])
            } else {
                None
            }),
    {
        if self.list.cursor < self.list.visible.len() {
            Some(self.list.visible[self.list.cursor])
        } else {
            None
        }
    }

    /// The types to cycle through (see [`available_types_of`]).
    pub fn available_types(&self) -> (out: Vec<String>)
        ensures
            views(out@) == available_types_of(views(self.types@), self.rows@),
    {
        let ghost tv = views(self.types@);
        let mut out: Vec<String> = Vec::new();
        let mut i: usize = 0;
        while i < self.types.len()
            invariant
                i <= self.types.len(),
                tv == views(self.types@),
                views(out@) == used_types(tv.take(i as int), self.rows@),
            decreases self.types.len() - i,
        {
            let t = &self.types[i];
            assert(tv.take(i + 1).drop_last() =~= tv.take(i as int));
            assert(tv.take(i + 1).last() == t@);
            let seen = find_text(&out, t).is_some();
            proof {
                lemma_first_where(views(out@), same_text(t@));
                if views(out@).contains(t@) {
                    let k = choose|k: int| 0 <= k < views(out@).len() && views(out@)[k] == t@;
                    assert((same_text(t@))(views(out@)[k]));
                }
                if any_where(views(out@), same_text(t@)) {
                    let k = choose|k: int| 0 <= k < views(out@).len() && #[trigger] (same_text(t@))(views(out@)[k]);
                    assert(views(out@)[k] == t@);
                }
            }
            let mut used = false;
            let mut j: usize = 0;
            while j < self.rows.len()
                invariant
                    j <= self.rows.len(),
                    used == exists|m: int| 0 <= m < j && #[trigger] self.rows@[m].type_@ == t@,
                decreases self.rows.len() - j,
            {
                if self.rows[j].type_ == *t {
                    used = true;
                }
                j += 1;
            }
            if !seen && used {
                out.push(t.clone());
                assert(views(out@) =~= used_types(tv.take(i + 1), self.rows@));
            }
            i += 1;
        }
        assert(tv.take(self.types.len() as int) =~= tv);
        let ghost base = views(out@);
        let mut k: usize = 0;
        while k < self.rows.len()
            invariant
                k <= self.rows.len(),
                views(out@) == with_row_types(base, self.rows@.take(k as int)),
            decreases self.rows.len() - k,
        {
            let t = &self.rows[k].type_;
            assert(self.rows@.take(k + 1).drop_last() =~= self.rows@.take(k as int));
            let seen = find_text(&out, t).is_some();
            proof {
                lemma_first_where(views(out@), same_text(t@));
                if views(out@).contains(t@) {
                    let m = choose|m: int| 0 <= m < views(out@).len() && views(out@)[m] == t@;
                    assert((same_text(t@))(views(out@)[m]));
                }
                if any_where(views(out@), same_text(t@)) {
                    let m = choose|m: int| 0 <= m < views(out@).len() && #[trigger] (same_text(t@))(views(out@)[m]);
                    assert(views(out@)[m] == t@);
                }
            }
            if !seen {
                out.push(t.clone());
                assert(views(out@) =~= with_row_types(base, self.rows@.take(k + 1)));
            }
            k += 1;
        }
        assert(self.rows@.take(self.rows.len() as int) =~= self.rows@);
        out
    }

    /// Moves the type filter forward or backward through the available
    /// types (see [`cycled_filter`]) and recomputes the list.
    pub fn cycle_type(&mut self, forward: bool)
        ensures
            cycle_type_done(*old(self), *final(self), forward),
    {
        let types = self.available_types();
        if types.len() == 0 {
            return;
        }
        let n = types.len();
        let new_filter = match &self.list.type_filter {
            None => Some(
                if forward {
                    types[0].clone()
                } else {
                    types[n - 1].clone()
                },
            ),
            Some(cur) => {
                let idx = find_text(&types, cur);
                match idx {
                    None => Some(
                        if forward {
                            types[0].clone()
                        } else {
                            types[n - 1].clone()
                        },
                    ),
                    Some(i) => {
                        proof {
                            lemma_first_where(views(types@), same_text(cur@));
                        }
                        if forward {
                            if i + 1 >= n {
                                None
                            } else {
                                Some(types[i + 1].clone())
                            }
                        } else {
                            if i == 0 {
                                None
                            } else {
                                Some(types[i - 1].clone())
                            }
                        }
                    },
                }
            },
        };
        self.list.type_filter = new_filter;
        self.refresh_list();
    }

    /// Shows only unfinished entries, or all again, and recomputes the list.
    pub fn toggle_pending(&mut self)
        ensures
            toggle_pending_done(*old(self), *final(self)),
    {
        self.list.pending_only = !self.list.pending_only;
        self.refresh_list();
    }

    /// Moves to the next sort mode and recomputes the list.
    pub fn cycle_sort(&mut self)
        ensures
            cycle_sort_done(*old(self), *final(self)),
    {
        self.list.sort = self.list.sort.next();
        self.refresh_list();
    }

    /// Moves the cursor down one row, if there is one.
    pub fn cursor_down(&mut self)
        ensures
            cursor_down_done(*old(self), *final(self)),
    {
        if self.list.visible.len() > 0 && self.list.cursor < self.list.visible.len() - 1 {
            self.list.cursor += 1;
        }
    }

    /// Moves the cursor up one row, if there is one.
    pub fn cursor_up(&mut self)
        ensures
            cursor_up_done(*old(self), *final(self)),
    {
        if self.list.cursor > 0 {
            self.list.cursor -= 1;
        }
    }

    /// Moves the cursor to the first row.
    pub fn cursor_home(&mut self)
        ensures
            cursor_home_done(*old(self), *final(self)),
    {
        self.list.cursor = 0;
    }

    /// Moves the cursor to the last row, if there is one.
    pub fn cursor_end(&mut self)
        ensures
            cursor_end_done(*old(self), *final(self)),
    {
        if self.list.visible.len() > 0 {
            self.list.cursor = self.list.visible.len() - 1;
        }
    }
}


/// `new` is `old` with the open type manager's error set to `msg`.
pub open spec fn tm_error_set(old: App, new: App, msg: Seq<char>) -> bool {
    match (old.modal, new.modal) {
        (Modal::TypeManager(m), Modal::TypeManager(n)) => {
            &&& n.error matches Some(e) && e@ == msg
            &&& n == TypeManagerModal { error: n.error, ..m }
            &&& new == App { modal: new.modal, ..old }
        },
        _ => false,
    }
}

/// `new` is `old` with the open type manager back to browsing, its buffer
/// empty and no error, and the cursor at `cursor` when given.
pub open spec fn tm_browsing(old: App, new: App, cursor: Option<int>) -> bool {
    match (old.modal, new.modal) {
        (Modal::TypeManager(m), Modal::TypeManager(n)) => {
            &&& n.mode == TypeManagerMode::Browse
            &&& n.buffer@.len() == 0
            &&& n.error is None
            &&& n.cursor == match cursor {
                Some(c) => c as usize,
                None => m.cursor,
            }
        },
        _ => false,
    }
}

/// The error the client shows for a type name before asking the server:
/// empty, or longer than [`MAX_TYPE_LEN`] characters.
pub open spec fn type_name_error(name: Seq<char>) -> Option<Seq<char>> {
    if name.len() == 0 {
        Some("name is required"@)
    } else if name.len() > MAX_TYPE_LEN {
        Some("max 64 chars"@)
    } else {
        None
    }
}

/// Checks a (trimmed) type name the way the server will, so that the form can
/// show the error at once.
pub fn validate_type_name(name: &str) -> (res: Option<String>)
    ensures
        opt_view(res) == type_name_error(name@),
{
    if name.is_empty() {
        return Some(String::from_str("name is required"));
    }
    if char_count(name) > MAX_TYPE_LEN {
        return Some(String::from_str("max 64 chars"));
    }
    None
}

/// The client's check of a type name agrees with the server's: after
/// trimming, the client refuses exactly the names that the server refuses
/// (it trims the name it gets once more), and the server keeps the name the
/// client sends as it is.
pub proof fn lemma_client_check_mirrors_server(raw: Seq<char>)
    ensures
        type_name_error(trim(raw)) is None <==> crate::server::type_name_answer(trim(trim(raw))).0 is Some,
        type_name_error(trim(raw)) is None ==> crate::server::type_name_answer(trim(trim(raw))).0
            == Some(trim(raw)),
{
    crate::text::lemma_trim_idempotent(raw);
}

/// What a vote sends to the server, and what undoing it will need.
pub struct VotePlan {
    pub winner_id: u128,
    pub loser_id: u128,
    pub snapshot: UndoEntry,
}

/// The add form's fields as the server is to get them; the rating is the
/// trimmed text, which the caller reads as a number.
pub struct AddDraft {
    pub type_: String,
    pub title: String,
    pub rating: String,
    pub status: String,
}

/// `rows` with every row of id `id` removed.
pub open spec fn without_row(rows: Seq<Row>, id: u128) -> Seq<Row> {
    rows.filter(|r: Row| r.id != id)
}

/// The rows that the compare screen may pair: finished ones, of the filtered
/// type if there is a type filter.
pub open spec fn eligible_row(r: Row, type_filter: Option<Seq<char>>) -> bool {
    &&& rankable(r.status@)
    &&& (type_filter matches Some(t) ==> r.type_@ == t)
}

/// The position that follows `s`'s in the status list (from the first when
/// `s` is none of them).
pub open spec fn next_status_index(s: Seq<char>) -> int {
    let cur = if crate::model::status_rank_of(s) < STATUS_COUNT {
        crate::model::status_rank_of(s)
    } else {
        0
    };
    (cur + 1) % (STATUS_COUNT as int)
}

impl App {
    /// Opens a confirmation to delete the row under the cursor.
    pub fn begin_delete(&mut self)
        requires
            old(self).wf(),
        ensures
            begin_delete_done(*old(self), *final(self)),
    {
        let idx = match self.current_row_idx() {
            Some(i) => i,
            None => {
                return;
            },
        };
        let id = self.rows[idx].id;
        let message = join3("Delete ", self.rows[idx].title.as_str(), "?");
        self.modal = Modal::Confirm(ConfirmModal { message, action: ConfirmAction::DeleteRow(id) });
    }

    /// Opens the edit form for the row under the cursor.
    pub fn begin_edit(&mut self)
        requires
            old(self).wf(),
        ensures
            begin_edit_done(*old(self), *final(self)),
    {
        let idx = match self.current_row_idx() {
            Some(i) => i,
            None => {
                return;
            },
        };
        let m = EditModal::new(&self.rows[idx], &self.types);
        self.modal = Modal::Edit(m);
    }

    /// Opens an empty add form.
    pub fn begin_add(&mut self)
        requires
            old(self).wf(),
        ensures
            begin_add_done(*old(self), *final(self)),
    {
        self.modal = Modal::Add(AddModal::new());
    }

    /// Opens the type manager, browsing from the first type.
    pub fn begin_type_manager(&mut self)
        requires
            old(self).wf(),
        ensures
            begin_type_manager_done(*old(self), *final(self)),
    {
        self.modal = Modal::TypeManager(TypeManagerModal::default());
    }

    /// Moves the type manager's cursor down, if there is a type below.
    pub fn type_mgr_cursor_down(&mut self)
        ensures
            type_mgr_cursor_down_done(*old(self), *final(self)),
    {
        let n = self.types.len();
        match &mut self.modal {
            Modal::TypeManager(m) => {
                if n > 0 && m.cursor < n - 1 {
                    m.cursor = m.cursor + 1;
                }
            },
            _ => {},
        }
    }

    /// Moves the type manager's cursor up, if there is a type above.
    pub fn type_mgr_cursor_up(&mut self)
        ensures
            type_mgr_cursor_up_done(*old(self), *final(self)),
    {
        match &mut self.modal {
            Modal::TypeManager(m) => {
                if m.cursor > 0 {
                    m.cursor = m.cursor - 1;
                }
            },
            _ => {},
        }
    }

    /// Moves the type manager's cursor to the first type.
    pub fn type_mgr_cursor_home(&mut self)
        ensures
            type_mgr_cursor_home_done(*old(self), *final(self)),
    {
        match &mut self.modal {
            Modal::TypeManager(m) => {
                m.cursor = 0;
            },
            _ => {},
        }
    }

    /// Moves the type manager's cursor to the last type (the first when there
    /// are none).
    pub fn type_mgr_cursor_end(&mut self)
        ensures
            type_mgr_cursor_end_done(*old(self), *final(self)),
    {
        let n = self.types.len();
        match &mut self.modal {
            Modal::TypeManager(m) => {
                m.cursor = if n == 0 { 0 } else { n - 1 };
            },
            _ => {},
        }
    }

    /// Starts typing the name of a new type.
    pub fn type_mgr_begin_add(&mut self)
        ensures
            type_mgr_begin_add_done(*old(self), *final(self)),
    {
        match &mut self.modal {
            Modal::TypeManager(m) => {
                m.mode = TypeManagerMode::AddInput;
                m.buffer = String::new();
                m.error = None;
            },
            _ => {},
        }
    }

    /// Starts renaming the type under the cursor, with its name in the buffer.
    pub fn type_mgr_begin_rename(&mut self)
        ensures
            type_mgr_begin_rename_done(*old(self), *final(self)),
    {
        let name = match &self.modal {
            Modal::TypeManager(m) => {
                if m.cursor < self.types.len() {
                    self.types[m.cursor].clone()
                } else {
                    return;
                }
            },
            _ => {
                return;
            },
        };
        match &mut self.modal {
            Modal::TypeManager(m) => {
                m.mode = TypeManagerMode::RenameInput;
                m.buffer = name;
                m.error = None;
            },
            _ => {},
        }
    }

    /// Leaves the input line without saving.
    pub fn type_mgr_input_cancel(&mut self)
        ensures
            type_mgr_input_cancel_done(*old(self), *final(self)),
    {
        match &mut self.modal {
            Modal::TypeManager(m) => {
                m.mode = TypeManagerMode::Browse;
                m.buffer = String::new();
                m.error = None;
            },
            _ => {},
        }
    }

    /// Types a character into the input line, unless it already holds
    /// [`MAX_TYPE_LEN`] characters.
    pub fn type_mgr_input_push(&mut self, c: char)
        ensures
            type_mgr_input_push_done(*old(self), *final(self), c),
    {
        match &mut self.modal {
            Modal::TypeManager(m) => {
                if char_count(m.buffer.as_str()) < MAX_TYPE_LEN {
                    push_char(&mut m.buffer, c);
                }
            },
            _ => {},
        }
    }

    /// Removes the last character of the input line.
    pub fn type_mgr_input_pop(&mut self)
        ensures
            type_mgr_input_pop_done(*old(self), *final(self)),
    {
        match &mut self.modal {
            Modal::TypeManager(m) => {
                pop_char(&mut m.buffer);
            },
            _ => {},
        }
    }

    /// Shows `err` in the type manager.
    pub fn type_mgr_set_error(&mut self, err: String)
        ensures
            match old(self).modal {
                Modal::TypeManager(_) => tm_error_set(*old(self), *final(self), err@),
                _ => *final(self) == *old(self),
            },
    {
        match &mut self.modal {
            Modal::TypeManager(m) => {
                m.error = Some(err);
            },
            _ => {},
        }
    }
}


/// The type list with the entries at `a` and `b` exchanged.
pub open spec fn swapped(s: Seq<String>, a: int, b: int) -> Seq<String> {
    s.update(a, s[b]).update(b, s[a])
}

/// Moving a type and then moving it back restores the catalogue: swapping
/// two places twice gives the list back.
pub proof fn lemma_move_back(s: Seq<String>, a: int, b: int)
    requires
        0 <= a < s.len(),
        0 <= b < s.len(),
    ensures
        swapped(swapped(s, a, b), b, a) == s,
{
    assert(swapped(swapped(s, a, b), b, a) =~= s);
}

/// `x` limited to `lo..=hi`.
pub open spec fn clamp_int(x: int, lo: int, hi: int) -> int {
    if x < lo {
        lo
    } else if x > hi {
        hi
    } else {
        x
    }
}

impl App {
    /// Checks the name typed for a new type. Sets the form's error and
    /// returns nothing when the name is empty, too long, or already a type up
    /// to ASCII case; otherwise returns the trimmed name to send.
    pub fn type_mgr_add_plan(&mut self) -> (res: Option<String>)
        ensures
            match old(self).modal {
                Modal::TypeManager(m) => {
                    let name = trim(m.buffer@);
                    match type_name_error(name) {
                        Some(e) => res is None && tm_error_set(*old(self), *final(self), e),
                        None => if any_where(views(old(self).types@), same_ci(name)) {
                            res is None && tm_error_set(
                                *old(self),
                                *final(self),
                                "type already exists"@,
                            )
                        } else {
                            res matches Some(n) && n@ == name && *final(self) == *old(self)
                        },
                    }
                },
                _ => res is None && *final(self) == *old(self),
            },
    {
        let name = match &self.modal {
            Modal::TypeManager(m) => trim_string(m.buffer.as_str()),
            _ => {
                return None;
            },
        };
        match validate_type_name(name.as_str()) {
            Some(err) => {
                self.type_mgr_set_error(err);
                return None;
            },
            None => {},
        }
        let found = find_ci(&self.types, name.as_str());
        proof {
            lemma_first_where(views(self.types@), same_ci(name@));
        }
        if found.is_some() {
            self.type_mgr_set_error(String::from_str("type already exists"));
            return None;
        }
        Some(name)
    }

    /// Takes the catalogue the server returned after adding or renaming the
    /// type `name`, and goes back to browsing with the cursor on that type.
    pub fn type_mgr_saved(&mut self, name: &str, list: Vec<String>)
        ensures
            final(self).types@ == list@,
            match old(self).modal {
                Modal::TypeManager(_) => {
                    &&& tm_browsing(*old(self), *final(self), first_where(views(list@), same_ci(name@)))
                    &&& *final(self) == (App {
                        types: final(self).types,
                        modal: final(self).modal,
                        ..*old(self)
                    })
                },
                _ => *final(self) == (App { types: final(self).types, ..*old(self) }),
            },
            old(self).wf() ==> final(self).wf(),
    {
        self.types = list;
        let new_idx = find_ci(&self.types, name);
        match &mut self.modal {
            Modal::TypeManager(m) => {
                m.mode = TypeManagerMode::Browse;
                m.buffer = String::new();
                m.error = None;
                match new_idx {
                    Some(i) => {
                        m.cursor = i;
                    },
                    None => {},
                }
            },
            _ => {},
        }
    }

    /// Checks the new name typed for the type under the cursor. Sets the
    /// form's error when the name is empty, too long, or another type's name
    /// up to ASCII case; goes back to browsing when the name is unchanged;
    /// otherwise returns the old and the new (trimmed) name to send.
    pub fn type_mgr_rename_plan(&mut self) -> (res: Option<(String, String)>)
        ensures
            match old(self).modal {
                Modal::TypeManager(m) => {
                    let new_name = trim(m.buffer@);
                    let types = views(old(self).types@);
                    match type_name_error(new_name) {
                        Some(e) => res is None && tm_error_set(*old(self), *final(self), e),
                        None => if m.cursor >= types.len() {
                            res is None && *final(self) == *old(self)
                        } else if types[m.cursor as int] == new_name {
                            res is None && tm_browsing(*old(self), *final(self), None) && *final(self)
                                == (App { modal: final(self).modal, ..*old(self) })
                        } else if !eq_ascii_ci(types[m.cursor as int], new_name) && any_where(
                            types,
                            same_ci(new_name),
                        ) {
                            res is None && tm_error_set(
                                *old(self),
                                *final(self),
                                "target name already exists"@,
                            )
                        } else {
                            res matches Some(p) && p.0@ == types[m.cursor as int] && p.1@ == new_name
                                && *final(self) == *old(self)
                        },
                    }
                },
                _ => res is None && *final(self) == *old(self),
            },
    {
        let (cursor, new_name) = match &self.modal {
            Modal::TypeManager(m) => (m.cursor, trim_string(m.buffer.as_str())),
            _ => {
                return None;
            },
        };
        match validate_type_name(new_name.as_str()) {
            Some(err) => {
                self.type_mgr_set_error(err);
                return None;
            },
            None => {},
        }
        if cursor >= self.types.len() {
            return None;
        }
        let old_name = self.types[cursor].clone();
        if old_name == new_name {
            match &mut self.modal {
                Modal::TypeManager(m) => {
                    m.mode = TypeManagerMode::Browse;
                    m.buffer = String::new();
                    m.error = None;
                },
                _ => {},
            }
            return None;
        }
        let case_only = eq_ignore_ascii_case(old_name.as_str(), new_name.as_str());
        let found = find_ci(&self.types, new_name.as_str());
        proof {
            lemma_first_where(views(self.types@), same_ci(new_name@));
        }
        if !case_only && found.is_some() {
            self.type_mgr_set_error(String::from_str("target name already exists"));
            return None;
        }
        Some((old_name, new_name))
    }

    /// Checks that the type under the cursor may be deleted. Sets the form's
    /// error when some row has that type up to ASCII case; otherwise returns
    /// the name to send.
    pub fn type_mgr_delete_plan(&mut self) -> (res: Option<String>)
        ensures
            match old(self).modal {
                Modal::TypeManager(m) => if m.cursor >= old(self).types@.len() {
                    res is None && *final(self) == *old(self)
                } else {
                    let name = old(self).types@[m.cursor as int]@;
                    if exists|i: int|
                        0 <= i < old(self).rows@.len() && eq_ascii_ci(
                            #[trigger] old(self).rows@[i].type_@,
                            name,
                        ) {
                        res is None && tm_error_set(
                            *old(self),
                            *final(self),
                            "'"@ + name + "' is in use"@,
                        )
                    } else {
                        res matches Some(n) && n@ == name && *final(self) == *old(self)
                    }
                },
                _ => res is None && *final(self) == *old(self),
            },
    {
        let cursor = match &self.modal {
            Modal::TypeManager(m) => m.cursor,
            _ => {
                return None;
            },
        };
        if cursor >= self.types.len() {
            return None;
        }
        let name = self.types[cursor].clone();
        let mut i: usize = 0;
        while i < self.rows.len()
            invariant
                i <= self.rows.len(),
                *self == *old(self),
                self.modal matches Modal::TypeManager(m) && m.cursor == cursor,
                cursor < self.types@.len(),
                name@ == self.types@[cursor as int]@,
                forall|j: int| 0 <= j < i ==> !eq_ascii_ci(#[trigger] self.rows@[j].type_@, name@),
            decreases self.rows.len() - i,
        {
            if eq_ignore_ascii_case(self.rows[i].type_.as_str(), name.as_str()) {
                assert(eq_ascii_ci(self.rows@[i as int].type_@, name@));
                let msg = join3("'", name.as_str(), "' is in use");
                self.type_mgr_set_error(msg);
                return None;
            }
            i += 1;
        }
        Some(name)
    }

    /// Drops the deleted type `name` (every entry equal to it up to ASCII
    /// case) and keeps the cursor inside the list.
    pub fn type_mgr_deleted(&mut self, name: &str)
        ensures
            views(final(self).types@) == views(old(self).types@).filter(
                |t: Seq<char>| !eq_ascii_ci(t, name@),
            ),
            match old(self).modal {
                Modal::TypeManager(m) => final(self).modal matches Modal::TypeManager(n) && n
                    == (TypeManagerModal {
                    cursor: clamp_cursor(m.cursor, final(self).types@.len()),
                    error: None,
                    ..m
                }) && n.error is None && *final(self) == (App {
                    types: final(self).types,
                    modal: final(self).modal,
                    ..*old(self)
                }),
                _ => *final(self) == (App { types: final(self).types, ..*old(self) }),
            },
            old(self).wf() ==> final(self).wf(),
    {
        let ghost pred = |t: Seq<char>| !eq_ascii_ci(t, name@);
        let mut kept: Vec<String> = Vec::new();
        let mut i: usize = 0;
        while i < self.types.len()
            invariant
                i <= self.types.len(),
                pred == (|t: Seq<char>| !eq_ascii_ci(t, name@)),
                views(kept@) == views(self.types@).take(i as int).filter(pred),
            decreases self.types.len() - i,
        {
            reveal_with_fuel(Seq::<_>::filter, 1);
            assert(views(self.types@).take(i + 1).drop_last() =~= views(self.types@).take(i as int));
            if !eq_ignore_ascii_case(self.types[i].as_str(), name) {
                kept.push(self.types[i].clone());
                assert(views(kept@) =~= views(self.types@).take(i as int).filter(pred).push(self.types@[i as int]@));
            }
            i += 1;
        }
        assert(views(self.types@).take(self.types.len() as int) =~= views(self.types@));
        self.types = kept;
        let n = self.types.len();
        match &mut self.modal {
            Modal::TypeManager(m) => {
                if m.cursor >= n {
                    m.cursor = if n == 0 { 0 } else { n - 1 };
                }
                m.error = None;
            },
            _ => {},
        }
    }

    /// Plans moving the type under the cursor by `delta` places (limited to
    /// the list): returns the new position and the reordered catalogue to
    /// send, or nothing when the position would not change.
    pub fn type_mgr_move_plan(&self, delta: i32) -> (res: Option<(usize, Vec<String>)>)
        requires
            self.types@.len() <= i32::MAX,
            self.modal matches Modal::TypeManager(m) ==> (self.types@.len() == 0 || m.cursor
                < self.types@.len()) && i32::MIN <= m.cursor + delta <= i32::MAX,
        ensures
            match self.modal {
                Modal::TypeManager(m) => {
                    let len = self.types@.len() as int;
                    let target = clamp_int(m.cursor + delta, 0, len - 1);
                    if len == 0 || target == m.cursor {
                        res is None
                    } else {
                        res matches Some(p) && p.0 == target && views(p.1@) == views(
                            swapped(self.types@, m.cursor as int, target),
                        )
                    }
                },
                _ => res is None,
            },
    {
        let cursor = match &self.modal {
            Modal::TypeManager(m) => m.cursor,
            _ => {
                return None;
            },
        };
        if self.types.len() == 0 {
            return None;
        }
        let len = self.types.len() as i64;
        let want = cursor as i64 + delta as i64;
        let target = if want < 0 {
            0
        } else if want > len - 1 {
            len - 1
        } else {
            want
        };
        let new_idx = target as usize;
        if new_idx == cursor {
            return None;
        }
        let mut reordered: Vec<String> = Vec::new();
        let mut i: usize = 0;
        while i < self.types.len()
            invariant
                i <= self.types.len(),
                cursor < self.types.len(),
                new_idx < self.types.len(),
                reordered@.len() == i,
                forall|k: int| 0 <= k < i ==> (#[trigger] reordered@[k])@ == swapped(
                    self.types@,
                    cursor as int,
                    new_idx as int,
                )[k]@,
            decreases self.types.len() - i,
        {
            let src = if i == cursor {
                new_idx
            } else if i == new_idx {
                cursor
            } else {
                i
            };
            reordered.push(self.types[src].clone());
            i += 1;
        }
        assert(views(reordered@) =~= views(swapped(self.types@, cursor as int, new_idx as int)));
        Some((new_idx, reordered))
    }

    /// Takes the catalogue the server returned after a move and puts the
    /// cursor on the moved type.
    pub fn type_mgr_moved(&mut self, new_idx: usize, list: Vec<String>)
        ensures
            final(self).types@ == list@,
            match old(self).modal {
                Modal::TypeManager(m) => final(self).modal matches Modal::TypeManager(n) && n
                    == (TypeManagerModal { cursor: new_idx, error: None, ..m }) && n.error is None
                    && *final(self) == (App {
                    types: final(self).types,
                    modal: final(self).modal,
                    ..*old(self)
                }),
                _ => *final(self) == (App { types: final(self).types, ..*old(self) }),
            },
            old(self).wf() ==> final(self).wf(),
    {
        self.types = list;
        match &mut self.modal {
            Modal::TypeManager(m) => {
                m.cursor = new_idx;
                m.error = None;
            },
            _ => {},
        }
    }
}


/// `rows` with the first row of `id` given Elo `elo` and `matches` matches.
pub open spec fn restored(rows: Seq<Row>, id: u128, elo: u64, matches: u32) -> Seq<Row> {
    match row_position(rows, id) {
        Some(i) => rows.update(i, Row { elo: elo, matches: matches, ..rows[i] }),
        None => rows,
    }
}

proof fn lemma_row_position_update(rows: Seq<Row>, i: int, r: Row, id: u128)
    requires
        0 <= i < rows.len(),
        r.id == rows[i].id,
    ensures
        row_position(rows.update(i, r), id) == row_position(rows, id),
    decreases rows.len(),
{
    let u = rows.update(i, r);
    if i < rows.len() - 1 {
        assert(u.drop_last() =~= rows.drop_last().update(i, r));
        lemma_row_position_update(rows.drop_last(), i, r, id);
    } else {
        assert(u.drop_last() =~= rows.drop_last());
    }
}

/// `new` is `old` with only its Elo and match count changed.
pub open spec fn rescored(new: Row, old: Row) -> bool {
    new == (Row { elo: new.elo, matches: new.matches, ..old })
}

/// Taking a vote back leaves the rows and the pair history as they were
/// before the vote. The vote replaced the pair's rows (ids `ai` and `bi`)
/// with the server's answer, which changes only their Elo and match counts,
/// and remembered the pair; taking it back restores both rows from the
/// snapshot taken before the vote (see [`App::vote_plan`]) and forgets the
/// last pair. The history comes back whole while it was not full.
pub proof fn lemma_vote_undo_round_trip(
    rows: Seq<Row>,
    history: Seq<(u128, u128)>,
    ai: u128,
    bi: u128,
    a_wins: bool,
    winner: Row,
    loser: Row,
)
    requires
        ai != bi,
        row_position(rows, ai) is Some,
        row_position(rows, bi) is Some,
        rescored(winner, rows[row_position(rows, if a_wins { ai } else { bi })->0]),
        rescored(loser, rows[row_position(rows, if a_wins { bi } else { ai })->0]),
        history.len() < HISTORY_SIZE,
    ensures
        ({
            let a = row_position(rows, ai)->0;
            let b = row_position(rows, bi)->0;
            let voted = replaced(replaced(rows, winner), loser);
            restored(restored(voted, ai, rows[a].elo, rows[a].matches), bi, rows[b].elo, rows[b].matches)
                == rows
        }),
        remembered(history, pair_key(winner.id, loser.id)).drop_last() == history,
{
    lemma_row_position(rows, ai);
    lemma_row_position(rows, bi);
    let a = row_position(rows, ai)->0;
    let b = row_position(rows, bi)->0;
    let (w, l) = if a_wins { (a, b) } else { (b, a) };
    assert(winner.id == rows[w].id && loser.id == rows[l].id);
    assert(row_position(rows, winner.id) == Some(w));
    let r1 = rows.update(w, winner);
    lemma_row_position_update(rows, w, winner, loser.id);
    lemma_row_position_update(rows, w, winner, ai);
    lemma_row_position_update(rows, w, winner, bi);
    assert(row_position(r1, loser.id) == Some(l));
    let r2 = r1.update(l, loser);
    lemma_row_position_update(r1, l, loser, ai);
    lemma_row_position_update(r1, l, loser, bi);
    assert(replaced(replaced(rows, winner), loser) == r2);
    let r3 = r2.update(a, Row { elo: rows[a].elo, matches: rows[a].matches, ..r2[a] });
    lemma_row_position_update(r2, a, Row { elo: rows[a].elo, matches: rows[a].matches, ..r2[a] }, bi);
    assert(restored(r2, ai, rows[a].elo, rows[a].matches) == r3);
    let r4 = r3.update(b, Row { elo: rows[b].elo, matches: rows[b].matches, ..r3[b] });
    assert(restored(r3, bi, rows[b].elo, rows[b].matches) == r4);
    assert(r4 =~= rows);
    assert(history.push(pair_key(winner.id, loser.id)).drop_last() =~= history);
}

/// Cycling the type filter backward and then forward brings it back, when
/// it was none or one of the types on offer.
pub proof fn lemma_cycle_type_undone_back(pre: App, mid: App, post: App)
    requires
        cycle_type_done(pre, mid, false),
        cycle_type_done(mid, post, true),
        pre.list.type_filter matches Some(t) ==> available_types_of(views(pre.types@), pre.rows@).contains(t@),
    ensures
        opt_view(post.list.type_filter) == opt_view(pre.list.type_filter),
{
    let avail = available_types_of(views(pre.types@), pre.rows@);
    if avail.len() > 0 {
        assert(mid.types == pre.types && mid.rows == pre.rows);
        lemma_available_types_distinct(views(pre.types@), pre.rows@);
        lemma_cycle_type_round_trip_back(avail, opt_view(pre.list.type_filter));
    }
}

proof fn lemma_cycle_states(states: Seq<App>, forward: bool, k: int)
    requires
        0 <= k < states.len(),
        forall|i: int| 0 <= i < states.len() - 1 ==> cycle_type_done(#[trigger] states[i], states[i + 1], forward),
    ensures
        states[k].rows == states[0].rows,
        states[k].types == states[0].types,
        available_types_of(views(states[0].types@), states[0].rows@).len() > 0 ==> opt_view(
            states[k].list.type_filter,
        ) == filter_after(
            available_types_of(views(states[0].types@), states[0].rows@),
            opt_view(states[0].list.type_filter),
            forward,
            k as nat,
        ),
    decreases k,
{
    if k > 0 {
        lemma_cycle_states(states, forward, k - 1);
        assert(cycle_type_done(states[k - 1], states[k], forward));
    }
}

/// Successive cycling steps in one direction, from no filter and with the
/// rows and the catalogue left alone, walk the types on offer in order
/// (forward from the first, backward from the last) and come back to no
/// filter one step after the end; each step shows the list as a refresh
/// computes it. With no type on offer a step changes nothing.
pub proof fn lemma_cycle_type_walk(states: Seq<App>, forward: bool)
    requires
        states.len() > 0,
        forall|i: int| 0 <= i < states.len() - 1 ==> cycle_type_done(#[trigger] states[i], states[i + 1], forward),
        states[0].list.type_filter is None,
    ensures
        ({
            let avail = available_types_of(views(states[0].types@), states[0].rows@);
            forall|k: int|
                1 <= k < states.len() && k <= avail.len() + 1 ==> opt_view(#[trigger] states[k].list.type_filter)
                    == if k <= avail.len() {
                    Some(
                        if forward {
                            avail[k - 1]
                        } else {
                            avail[avail.len() - k]
                        },
                    )
                } else {
                    None::<Seq<char>>
                }
        }),
        available_types_of(views(states[0].types@), states[0].rows@).len() == 0 ==> forall|k: int|
            0 <= k < states.len() ==> #[trigger] states[k] == states[0],
{
    let avail = available_types_of(views(states[0].types@), states[0].rows@);
    assert forall|k: int|
        1 <= k < states.len() && k <= avail.len() + 1 implies opt_view(#[trigger] states[k].list.type_filter)
            == if k <= avail.len() {
            Some(
                if forward {
                    avail[k - 1]
                } else {
                    avail[avail.len() - k]
                },
            )
        } else {
            None::<Seq<char>>
        } by {
        lemma_cycle_states(states, forward, k);
        if avail.len() > 0 {
            lemma_available_types_distinct(views(states[0].types@), states[0].rows@);
            lemma_cycle_walk(avail, forward, k as nat);
        }
    }
    if avail.len() == 0 {
        assert forall|k: int| 0 <= k < states.len() implies #[trigger] states[k] == states[0] by {
            lemma_same_states(states, forward, k);
        }
    }
}

proof fn lemma_same_states(states: Seq<App>, forward: bool, k: int)
    requires
        0 <= k < states.len(),
        forall|i: int| 0 <= i < states.len() - 1 ==> cycle_type_done(#[trigger] states[i], states[i + 1], forward),
        available_types_of(views(states[0].types@), states[0].rows@).len() == 0,
    ensures
        states[k] == states[0],
    decreases k,
{
    if k > 0 {
        lemma_same_states(states, forward, k - 1);
        assert(cycle_type_done(states[k - 1], states[k], forward));
    }
}

/// Refreshing the list right after a refresh leaves it as it was: the same
/// rows shown in the same order, and the same cursor.
pub proof fn lemma_refresh_idempotent(pre: App, mid: App, post: App)
    requires
        mid.refreshed_from(pre),
        post.refreshed_from(mid),
    ensures
        post.list.visible@ == mid.list.visible@,
        post.list.cursor == mid.list.cursor,
        post == (App { list: ListState { visible: post.list.visible, ..mid.list }, ..mid }),
{
    let rows = pre.rows@;
    let s = mid.list.visible@;
    let t = post.list.visible@;
    let q = pre.list.search_query@;
    assert forall|x: usize| s.contains(x) <==> t.contains(x) by {
        if s.contains(x) {
            let k = choose|k: int| 0 <= k < s.len() && s[k] == x;
            assert(row_shown(rows[x as int], opt_view(pre.list.type_filter), pre.list.pending_only, q));
        }
        if t.contains(x) {
            let k = choose|k: int| 0 <= k < t.len() && t[k] == x;
            assert(row_shown(rows[x as int], opt_view(pre.list.type_filter), pre.list.pending_only, q));
        }
    }
    lemma_sorted_unique(rows, pre.list.sort, s, t);
}

/// Cycling the type filter forward and then back brings it back, when it
/// was none or one of the types on offer.
pub proof fn lemma_cycle_type_undone(pre: App, mid: App, post: App)
    requires
        cycle_type_done(pre, mid, true),
        cycle_type_done(mid, post, false),
        pre.list.type_filter matches Some(t) ==> available_types_of(views(pre.types@), pre.rows@).contains(t@),
    ensures
        opt_view(post.list.type_filter) == opt_view(pre.list.type_filter),
{
    let avail = available_types_of(views(pre.types@), pre.rows@);
    if avail.len() > 0 {
        assert(mid.types == pre.types && mid.rows == pre.rows);
        lemma_available_types_distinct(views(pre.types@), pre.rows@);
        lemma_cycle_type_round_trip(avail, opt_view(pre.list.type_filter));
    }
}

/// The snapshot that [`App::vote_plan`] keeps for the pair `ai`, `bi` of
/// `rows`: both ids with their Elo and match counts.
pub open spec fn vote_snapshot(rows: Seq<Row>, ai: u128, bi: u128) -> UndoEntry {
    let a = row_position(rows, ai)->0;
    let b = row_position(rows, bi)->0;
    UndoEntry {
        a_id: ai,
        b_id: bi,
        old_elo_a: rows[a].elo,
        old_elo_b: rows[b].elo,
        old_matches_a: rows[a].matches,
        old_matches_b: rows[b].matches,
    }
}

/// A vote taken back, end to end, leaves the client as it was before the
/// vote: the pair on show was `ai`, `bi` (two different rows), the vote kept
/// the snapshot of [`vote_snapshot`] and took the server's rows (which
/// change only Elo and match counts) as [`App::vote_applied`] does; a new
/// pair may then have been drawn; taking the vote back pops the snapshot
/// ([`App::pop_undo`]) and restores it ([`App::undo_applied`]). Afterwards
/// the rows, the pair history (while it was not full), the undo stack and
/// the pair on show are those before the vote, and no outcome is shown.
pub proof fn lemma_vote_undo_app(
    pre: App,
    voted: App,
    drawn: App,
    popped: App,
    undone: App,
    a_wins: bool,
    winner: Row,
    loser: Row,
)
    requires
        pre.compare.current_pair matches Some(p) && p.0 != p.1 && row_position(pre.rows@, p.0) is Some
            && row_position(pre.rows@, p.1) is Some,
        ({
            let (ai, bi) = pre.compare.current_pair->0;
            &&& rescored(winner, pre.rows@[row_position(pre.rows@, if a_wins { ai } else { bi })->0])
            &&& rescored(loser, pre.rows@[row_position(pre.rows@, if a_wins { bi } else { ai })->0])
            &&& voted.pairer.history() == remembered(pre.pairer.history(), pair_key(winner.id, loser.id))
            &&& voted.rows@ == replaced(replaced(pre.rows@, winner), loser)
            &&& voted.undo_stack@ == pre.undo_stack@.push(vote_snapshot(pre.rows@, ai, bi))
        }),
        pre.pairer.history().len() < HISTORY_SIZE,
        drawn == (App { compare: CompareState { current_pair: drawn.compare.current_pair, ..voted.compare }, ..voted }),
        popped.undo_stack@ == drawn.undo_stack@.drop_last(),
        popped == (App { undo_stack: popped.undo_stack, ..drawn }),
        ({
            let u = drawn.undo_stack@.last();
            &&& undone.rows@ == restored(
                restored(popped.rows@, u.a_id, u.old_elo_a, u.old_matches_a),
                u.b_id,
                u.old_elo_b,
                u.old_matches_b,
            )
            &&& undone.pairer.history() == popped.pairer.history().drop_last()
            &&& undone.compare.current_pair == Some((u.a_id, u.b_id))
            &&& undone.compare.last_result is None
            &&& undone.undo_stack == popped.undo_stack
        }),
    ensures
        undone.rows@ == pre.rows@,
        undone.pairer.history() == pre.pairer.history(),
        undone.undo_stack@ == pre.undo_stack@,
        undone.compare.current_pair == pre.compare.current_pair,
        undone.compare.last_result is None,
{
    let (ai, bi) = pre.compare.current_pair->0;
    lemma_vote_undo_round_trip(pre.rows@, pre.pairer.history(), ai, bi, a_wins, winner, loser);
    assert(drawn.undo_stack@.last() == vote_snapshot(pre.rows@, ai, bi));
    assert(drawn.undo_stack@.drop_last() =~= pre.undo_stack@);
}

proof fn lemma_replaced_ids(rows: Seq<Row>, r: Row)
    ensures
        replaced(rows, r).len() == rows.len(),
        forall|i: int| 0 <= i < rows.len() ==> #[trigger] replaced(rows, r)[i].id == rows[i].id,
        forall|id: u128| #[trigger] row_position(replaced(rows, r), id) == row_position(rows, id),
{
    lemma_row_position(rows, r.id);
    if row_position(rows, r.id) is Some {
        let k = row_position(rows, r.id)->0;
        assert forall|id: u128| #[trigger] row_position(replaced(rows, r), id) == row_position(rows, id) by {
            lemma_row_position_update(rows, k, r, id);
        }
    }
}

proof fn lemma_restored_ids(rows: Seq<Row>, x: u128, elo: u64, matches: u32)
    ensures
        restored(rows, x, elo, matches).len() == rows.len(),
        forall|i: int| 0 <= i < rows.len() ==> #[trigger] restored(rows, x, elo, matches)[i].id == rows[i].id,
        forall|id: u128| #[trigger] row_position(restored(rows, x, elo, matches), id) == row_position(rows, id),
        row_position(rows, x) matches Some(k) ==> restored(rows, x, elo, matches)[k].elo == elo
            && restored(rows, x, elo, matches)[k].matches == matches,
        forall|i: int|
            0 <= i < rows.len() && Some(i) != row_position(rows, x) ==> #[trigger] restored(rows, x, elo, matches)[i]
                == rows[i],
{
    lemma_row_position(rows, x);
    if row_position(rows, x) is Some {
        let k = row_position(rows, x)->0;
        let r = Row { elo: elo, matches: matches, ..rows[k] };
        assert forall|id: u128| #[trigger] row_position(restored(rows, x, elo, matches), id) == row_position(rows, id) by {
            lemma_row_position_update(rows, k, r, id);
        }
    }
}

/// Taking a vote back restores the Elo and match counts of the pair's two
/// rows whatever rows the server answered the vote with, and leaves every
/// row where it was with its id. The pair was `ai`, `bi`; the vote kept the
/// snapshot of [`vote_snapshot`] and took the server's rows as
/// [`App::vote_applied`] does; a new pair may then have been drawn; the
/// undo pops the snapshot ([`App::pop_undo`]) and restores it
/// ([`App::undo_applied`]). Afterwards the two rows hold their Elo and match
/// counts from before the vote, the pair history is as before (while it was
/// not full), and so are the undo stack and the pair on show; no outcome is
/// shown.
pub proof fn lemma_vote_undo_restores_scores(
    pre: App,
    voted: App,
    drawn: App,
    popped: App,
    undone: App,
    winner: Row,
    loser: Row,
)
    requires
        pre.compare.current_pair matches Some(p) && row_position(pre.rows@, p.0) is Some && row_position(
            pre.rows@,
            p.1,
        ) is Some,
        ({
            let (ai, bi) = pre.compare.current_pair->0;
            &&& voted.pairer.history() == remembered(pre.pairer.history(), pair_key(winner.id, loser.id))
            &&& voted.rows@ == replaced(replaced(pre.rows@, winner), loser)
            &&& voted.undo_stack@ == pre.undo_stack@.push(vote_snapshot(pre.rows@, ai, bi))
        }),
        pre.pairer.history().len() < HISTORY_SIZE,
        drawn == (App { compare: CompareState { current_pair: drawn.compare.current_pair, ..voted.compare }, ..voted }),
        popped.undo_stack@ == drawn.undo_stack@.drop_last(),
        popped == (App { undo_stack: popped.undo_stack, ..drawn }),
        ({
            let u = drawn.undo_stack@.last();
            &&& undone.rows@ == restored(
                restored(popped.rows@, u.a_id, u.old_elo_a, u.old_matches_a),
                u.b_id,
                u.old_elo_b,
                u.old_matches_b,
            )
            &&& undone.pairer.history() == popped.pairer.history().drop_last()
            &&& undone.compare.current_pair == Some((u.a_id, u.b_id))
            &&& undone.compare.last_result is None
            &&& undone.undo_stack == popped.undo_stack
        }),
    ensures
        ({
            let (ai, bi) = pre.compare.current_pair->0;
            let a = row_position(pre.rows@, ai)->0;
            let b = row_position(pre.rows@, bi)->0;
            &&& undone.rows@.len() == pre.rows@.len()
            &&& forall|i: int| 0 <= i < pre.rows@.len() ==> #[trigger] undone.rows@[i].id == pre.rows@[i].id
            &&& row_position(undone.rows@, ai) == Some(a)
            &&& row_position(undone.rows@, bi) == Some(b)
            &&& undone.rows@[a].elo == pre.rows@[a].elo
            &&& undone.rows@[a].matches == pre.rows@[a].matches
            &&& undone.rows@[b].elo == pre.rows@[b].elo
            &&& undone.rows@[b].matches == pre.rows@[b].matches
        }),
        undone.pairer.history() == pre.pairer.history(),
        undone.undo_stack@ == pre.undo_stack@,
        undone.compare.current_pair == pre.compare.current_pair,
        undone.compare.last_result is None,
{
    let (ai, bi) = pre.compare.current_pair->0;
    let rows = pre.rows@;
    let a = row_position(rows, ai)->0;
    let b = row_position(rows, bi)->0;
    lemma_row_position(rows, ai);
    lemma_row_position(rows, bi);
    let r1 = replaced(rows, winner);
    lemma_replaced_ids(rows, winner);
    let r2 = replaced(r1, loser);
    lemma_replaced_ids(r1, loser);
    assert(drawn.undo_stack@.last() == vote_snapshot(rows, ai, bi));
    assert(drawn.undo_stack@.drop_last() =~= pre.undo_stack@);
    assert(popped.rows@ == r2);
    assert(row_position(r2, ai) == Some(a));
    assert(row_position(r2, bi) == Some(b));
    let r3 = restored(r2, ai, rows[a].elo, rows[a].matches);
    lemma_restored_ids(r2, ai, rows[a].elo, rows[a].matches);
    let r4 = restored(r3, bi, rows[b].elo, rows[b].matches);
    lemma_restored_ids(r3, bi, rows[b].elo, rows[b].matches);
    assert(undone.rows@ == r4);
    if a != b {
        assert(r4[a] == r3[a]);
    } else {
        assert(ai == bi);
    }
    assert(pre.pairer.history().push(pair_key(winner.id, loser.id)).drop_last() =~= pre.pairer.history());
}

impl App {
    /// Starts a search with an empty query and recomputes the list.
    pub fn open_search(&mut self)
        ensures
            open_search_done(*old(self), *final(self)),
    {
        self.list.search_active = true;
        self.list.search_query = String::new();
        self.refresh_list();
    }

    /// Ends the search; with `clear`, drops the query and recomputes the list.
    pub fn close_search(&mut self, clear: bool)
        ensures
            close_search_done(*old(self), *final(self), clear),
    {
        self.list.search_active = false;
        if clear {
            self.list.search_query = String::new();
            self.refresh_list();
        }
    }

    /// Adds a character to the query and recomputes the list.
    pub fn search_push(&mut self, c: char)
        ensures
            search_push_done(*old(self), *final(self), c),
    {
        push_char(&mut self.list.search_query, c);
        self.refresh_list();
    }

    /// Removes the query's last character and recomputes the list.
    pub fn search_pop(&mut self)
        ensures
            search_pop_done(*old(self), *final(self)),
    {
        pop_char(&mut self.list.search_query);
        self.refresh_list();
    }

    /// Shows the rows the server returned and recomputes the list.
    pub fn set_rows(&mut self, rows: Vec<Row>)
        ensures
            final(self).rows@ == rows@,
            final(self).refreshed_from((App { rows: final(self).rows, ..*old(self) })),
            old(self).wf() ==> final(self).wf(),
    {
        self.rows = rows;
        self.refresh_list();
    }

    /// Goes to `screen`; returns whether a new pair must be drawn (on the
    /// compare screen).
    pub fn switch_screen(&mut self, screen: Screen) -> (needs_pair: bool)
        ensures
            switch_screen_done(*old(self), *final(self), screen),
            needs_pair == (screen == Screen::Compare),
    {
        self.screen = screen;
        screen == Screen::Compare
    }

    /// Opens the statistics (scrolled to the top), or closes them back to
    /// the list.
    pub fn toggle_stats(&mut self)
        ensures
            toggle_stats_done(*old(self), *final(self)),
    {
        self.screen = match self.screen {
            Screen::Stats => Screen::List,
            _ => {
                self.stats_scroll = 0;
                Screen::Stats
            },
        };
    }

    /// Shows or hides the key help.
    pub fn toggle_help(&mut self)
        ensures
            toggle_help_done(*old(self), *final(self)),
    {
        self.show_help = !self.show_help;
    }

    /// Scrolls the statistics by `delta` lines, not above the top. The
    /// position is kept as a 16-bit number.
    pub fn stats_scroll_by(&mut self, delta: i16)
        ensures
            stats_scroll_by_done(*old(self), *final(self), delta),
    {
        let want: i32 = self.stats_scroll as i32 + delta as i32;
        self.stats_scroll = if want < 0 {
            0
        } else {
            #[verifier::truncate]
            (want as u16)
        };
    }

    /// Scrolls the statistics to the top.
    pub fn stats_scroll_top(&mut self)
        ensures
            stats_scroll_top_done(*old(self), *final(self)),
    {
        self.stats_scroll = 0;
    }

    /// Scrolls the statistics to the bottom (the height last drawn).
    pub fn stats_scroll_bottom(&mut self)
        ensures
            stats_scroll_bottom_done(*old(self), *final(self)),
    {
        self.stats_scroll = self.stats_content_height;
    }

    /// The rows the compare screen may pair (see [`eligible_row`]), in row
    /// order.
    pub fn eligible_indices(&self) -> (out: Vec<usize>)
        ensures
            forall|k: int|
                0 <= k < out@.len() ==> #[trigger] out@[k] < self.rows@.len() && eligible_row(
                    self.rows@[out@[k] as int],
                    opt_view(self.list.type_filter),
                ),
            forall|i: int|
                0 <= i < self.rows@.len() && eligible_row(self.rows@[i], opt_view(self.list.type_filter))
                    ==> out@.contains(i as usize),
            forall|a: int, b: int| 0 <= a < b < out@.len() ==> #[trigger] out@[a] < #[trigger] out@[b],
    {
        let mut out: Vec<usize> = Vec::new();
        let mut i: usize = 0;
        while i < self.rows.len()
            invariant
                i <= self.rows.len(),
                forall|k: int|
                    0 <= k < out@.len() ==> #[trigger] out@[k] < i && eligible_row(
                        self.rows@[out@[k] as int],
                        opt_view(self.list.type_filter),
                    ),
                forall|j: int|
                    0 <= j < i && eligible_row(self.rows@[j], opt_view(self.list.type_filter))
                        ==> out@.contains(j as usize),
                forall|a: int, b: int| 0 <= a < b < out@.len() ==> #[trigger] out@[a] < #[trigger] out@[b],
            decreases self.rows.len() - i,
        {
            let r = &self.rows[i];
            let ok = is_rankable(r.status.as_str()) && match &self.list.type_filter {
                Some(t) => r.type_ == *t,
                None => true,
            };
            if ok {
                let ghost before = out@;
                out.push(i);
                proof {
                    assert forall|j: int|
                        0 <= j <= i && eligible_row(self.rows@[j], opt_view(self.list.type_filter))
                            implies out@.contains(j as usize) by {
                        if j < i {
                            let m = choose|m: int| 0 <= m < before.len() && before[m] == j as usize;
                            assert(out@[m] == j as usize);
                        } else {
                            assert(out@[out@.len() - 1] == i);
                        }
                    }
                }
            }
            i += 1;
        }
        out
    }

    /// Plans a vote on the pair on show (`a_wins`: the first entry won).
    /// Clears the pair when one of its rows is gone. Returns winner, loser and
    /// the values that undoing the vote will restore.
    pub fn vote_plan(&mut self, a_wins: bool) -> (res: Option<VotePlan>)
        ensures
            match old(self).compare.current_pair {
                None => res is None && *final(self) == *old(self),
                Some((ai, bi)) => match (row_position(old(self).rows@, ai), row_position(old(self).rows@, bi)) {
                    (Some(a), Some(b)) => {
                        &&& *final(self) == *old(self)
                        &&& res matches Some(p) && p.winner_id == (if a_wins {
                            ai
                        } else {
                            bi
                        }) && p.loser_id == (if a_wins {
                            bi
                        } else {
                            ai
                        }) && p.snapshot == vote_snapshot(old(self).rows@, ai, bi)
                    },
                    _ => res is None && *final(self) == (App {
                        compare: CompareState { current_pair: None, ..old(self).compare },
                        ..*old(self)
                    }),
                },
            },
    {
        let (ai, bi) = match self.compare.current_pair {
            Some(p) => p,
            None => {
                return None;
            },
        };
        proof {
            lemma_row_position(self.rows@, ai);
            lemma_row_position(self.rows@, bi);
        }
        let (a_idx, b_idx) = match (self.row_idx_by_id(ai), self.row_idx_by_id(bi)) {
            (Some(a), Some(b)) => (a, b),
            _ => {
                self.compare.current_pair = None;
                return None;
            },
        };
        let (winner_id, loser_id) = if a_wins {
            (ai, bi)
        } else {
            (bi, ai)
        };
        let snapshot = UndoEntry {
            a_id: ai,
            b_id: bi,
            old_elo_a: self.rows[a_idx].elo,
            old_elo_b: self.rows[b_idx].elo,
            old_matches_a: self.rows[a_idx].matches,
            old_matches_b: self.rows[b_idx].matches,
        };
        Some(VotePlan { winner_id, loser_id, snapshot })
    }

    /// Takes the server's answer to a vote: remembers the pair, shows the
    /// updated rows and the outcome, and keeps `snapshot` for undo.
    pub fn vote_applied(&mut self, winner: Row, loser: Row, delta_w: u64, delta_l: u64, snapshot: UndoEntry)
        ensures
            final(self).pairer.history() == remembered(
                old(self).pairer.history(),
                pair_key(winner.id, loser.id),
            ),
            final(self).rows@ == replaced(replaced(old(self).rows@, winner), loser),
            final(self).undo_stack@ == old(self).undo_stack@.push(snapshot),
            final(self).compare.last_result matches Some(r) && r.winner_title@ == winner.title@
                && r.loser_title@ == loser.title@ && r.delta_w == delta_w && r.delta_l == delta_l,
            *final(self) == (App {
                pairer: final(self).pairer,
                rows: final(self).rows,
                undo_stack: final(self).undo_stack,
                compare: CompareState { last_result: final(self).compare.last_result, ..old(self).compare },
                ..*old(self)
            }),
            old(self).wf() ==> final(self).wf(),
    {
        let result = VoteResult {
            winner_title: winner.title.clone(),
            loser_title: loser.title.clone(),
            delta_w,
            delta_l,
        };
        self.pairer.remember(&winner, &loser);
        self.replace_row(winner);
        self.replace_row(loser);
        self.undo_stack.push(snapshot);
        self.compare.last_result = Some(result);
    }

    /// Skips the pair on show: forgets the last outcome (a new pair is drawn
    /// next).
    pub fn skip(&mut self)
        ensures
            skip_done(*old(self), *final(self)),
    {
        self.compare.last_result = None;
    }

    /// Takes the latest vote off the undo stack.
    pub fn pop_undo(&mut self) -> (res: Option<UndoEntry>)
        ensures
            old(self).undo_stack@.len() == 0 ==> res is None && *final(self) == *old(self),
            old(self).undo_stack@.len() > 0 ==> res == Some(old(self).undo_stack@.last())
                && final(self).undo_stack@ == old(self).undo_stack@.drop_last() && *final(self)
                == (App { undo_stack: final(self).undo_stack, ..*old(self) }),
    {
        if self.undo_stack.len() == 0 {
            return None;
        }
        self.undo_stack.pop()
    }

    /// After the server restored the pair of `u`: puts back both rows' Elo
    /// and match counts, forgets the pair and shows it again.
    pub fn undo_applied(&mut self, u: UndoEntry)
        ensures
            final(self).rows@ == restored(
                restored(old(self).rows@, u.a_id, u.old_elo_a, u.old_matches_a),
                u.b_id,
                u.old_elo_b,
                u.old_matches_b,
            ),
            old(self).pairer.history().len() > 0 ==> final(self).pairer.history() == old(
                self,
            ).pairer.history().drop_last(),
            old(self).pairer.history().len() == 0 ==> final(self).pairer.history() == old(
                self,
            ).pairer.history(),
            final(self).compare.current_pair == Some((u.a_id, u.b_id)),
            final(self).compare.last_result is None,
            *final(self) == (App {
                pairer: final(self).pairer,
                rows: final(self).rows,
                compare: final(self).compare,
                ..*old(self)
            }),
            old(self).wf() ==> final(self).wf(),
    {
        proof {
            lemma_row_position(self.rows@, u.a_id);
        }
        match self.row_idx_by_id(u.a_id) {
            Some(i) => {
                let mut r = self.rows[i].duplicate();
                r.elo = u.old_elo_a;
                r.matches = u.old_matches_a;
                self.rows.set(i, r);
            },
            None => {},
        }
        proof {
            lemma_row_position(self.rows@, u.b_id);
        }
        match self.row_idx_by_id(u.b_id) {
            Some(i) => {
                let mut r = self.rows[i].duplicate();
                r.elo = u.old_elo_b;
                r.matches = u.old_matches_b;
                self.rows.set(i, r);
            },
            None => {},
        }
        self.pairer.forget_last();
        self.compare.current_pair = Some((u.a_id, u.b_id));
        self.compare.last_result = None;
    }

    /// Closes the dialog; returns the row to delete when it was a
    /// confirmation to delete one.
    pub fn take_confirm(&mut self) -> (res: Option<u128>)
        ensures
            *final(self) == (App { modal: Modal::Hidden, ..*old(self) }),
            res == match old(self).modal {
                Modal::Confirm(c) => match c.action {
                    ConfirmAction::DeleteRow(id) => Some(id),
                },
                _ => None,
            },
            old(self).wf() ==> final(self).wf(),
    {
        let mut m = Modal::Hidden;
        std::mem::swap(&mut m, &mut self.modal);
        match m {
            Modal::Confirm(c) => match c.action {
                ConfirmAction::DeleteRow(id) => Some(id),
            },
            _ => None,
        }
    }

    /// Drops the deleted row `id` and recomputes the list.
    pub fn remove_row(&mut self, id: u128)
        ensures
            final(self).rows@ == without_row(old(self).rows@, id),
            final(self).refreshed_from((App { rows: final(self).rows, ..*old(self) })),
            old(self).wf() ==> final(self).wf(),
    {
        let ghost pred = |r: Row| r.id != id;
        let mut kept: Vec<Row> = Vec::new();
        let mut i: usize = 0;
        while i < self.rows.len()
            invariant
                i <= self.rows.len(),
                pred == (|r: Row| r.id != id),
                kept@ == self.rows@.take(i as int).filter(pred),
            decreases self.rows.len() - i,
        {
            reveal_with_fuel(Seq::<_>::filter, 1);
            assert(self.rows@.take(i + 1).drop_last() =~= self.rows@.take(i as int));
            if self.rows[i].id != id {
                kept.push(self.rows[i].duplicate());
            }
            i += 1;
        }
        assert(self.rows@.take(self.rows.len() as int) =~= self.rows@);
        self.rows = kept;
        self.refresh_list();
    }

    /// Closes the dialog.
    pub fn confirm_no(&mut self)
        ensures
            confirm_no_done(*old(self), *final(self)),
    {
        self.modal = Modal::Hidden;
    }

    /// What the add form would send: nothing unless the form is open, its
    /// trimmed title is not empty and its type position names a type.
    pub fn add_form_request(&self) -> (res: Option<AddDraft>)
        requires
            self.wf(),
        ensures
            match self.modal {
                Modal::Add(m) => if trim(m.title@).len() == 0 || m.type_idx >= self.types@.len() {
                    res is None
                } else {
                    res matches Some(d) && d.type_@ == self.types@[m.type_idx as int]@ && d.title@
                        == trim(m.title@) && d.rating@ == trim(m.rating@) && d.status@
                        == status_name(m.status_idx as int)
                },
                _ => res is None,
            },
    {
        match &self.modal {
            Modal::Add(m) => {
                let title = trim_string(m.title.as_str());
                if title.as_str().is_empty() {
                    return None;
                }
                if m.type_idx >= self.types.len() {
                    return None;
                }
                let type_ = self.types[m.type_idx].clone();
                Some(
                    AddDraft {
                        type_,
                        title,
                        rating: trim_string(m.rating.as_str()),
                        status: String::from_str(status_at(m.status_idx)),
                    },
                )
            },
            _ => None,
        }
    }

    /// Shows the row the server added, closes the form and recomputes the list.
    pub fn add_applied(&mut self, row: Row)
        ensures
            final(self).rows@ == old(self).rows@.push(row),
            final(self).refreshed_from(
                (App { rows: final(self).rows, modal: Modal::Hidden, ..*old(self) }),
            ),
            old(self).wf() ==> final(self).wf(),
    {
        self.rows.push(row);
        self.modal = Modal::Hidden;
        self.refresh_list();
    }

    /// What the edit form would send: the row's id and its new fields;
    /// nothing unless the form is open, its trimmed title is not empty and
    /// its type position names a type.
    pub fn edit_form_request(&self) -> (res: Option<(u128, crate::model::EditRequest)>)
        requires
            self.wf(),
        ensures
            match self.modal {
                Modal::Edit(m) => if trim(m.title@).len() == 0 || m.type_idx >= self.types@.len() {
                    res is None
                } else {
                    res matches Some(p) && p.0 == m.row_id && p.1.type_@
                        == self.types@[m.type_idx as int]@ && p.1.title@ == trim(m.title@)
                        && p.1.status@ == status_name(m.status_idx as int)
                },
                _ => res is None,
            },
    {
        match &self.modal {
            Modal::Edit(m) => {
                let title = trim_string(m.title.as_str());
                if title.as_str().is_empty() {
                    return None;
                }
                if m.type_idx >= self.types.len() {
                    return None;
                }
                let type_ = self.types[m.type_idx].clone();
                Some(
                    (
                        m.row_id,
                        crate::model::EditRequest {
                            type_,
                            title,
                            status: String::from_str(status_at(m.status_idx)),
                        },
                    ),
                )
            },
            _ => None,
        }
    }

    /// Shows a row the server changed, closes the form and recomputes the list.
    pub fn edit_applied(&mut self, row: Row)
        ensures
            final(self).rows@ == replaced(old(self).rows@, row),
            final(self).refreshed_from(
                (App { rows: final(self).rows, modal: Modal::Hidden, ..*old(self) }),
            ),
            old(self).wf() ==> final(self).wf(),
    {
        self.replace_row(row);
        self.modal = Modal::Hidden;
        self.refresh_list();
    }

    /// The row under the cursor and the status that follows its own (see
    /// [`next_status_index`]).
    pub fn status_toggle_target(&self) -> (res: Option<(u128, String)>)
        requires
            self.wf(),
        ensures
            match self_current(*self) {
                None => res is None,
                Some(i) => res matches Some(p) && p.0 == self.rows@[i].id && p.1@ == status_name(
                    next_status_index(self.rows@[i].status@),
                ),
            },
    {
        let idx = match self.current_row_idx() {
            Some(i) => i,
            None => {
                return None;
            },
        };
        let rank = crate::model::status_rank(self.rows[idx].status.as_str());
        let cur = if rank < STATUS_COUNT {
            rank
        } else {
            0
        };
        let next = if cur + 1 == STATUS_COUNT {
            0
        } else {
            cur + 1
        };
        Some((self.rows[idx].id, String::from_str(status_at(next))))
    }

    /// Shows a row whose status the server changed and recomputes the list.
    pub fn status_applied(&mut self, row: Row)
        ensures
            final(self).rows@ == replaced(old(self).rows@, row),
            final(self).refreshed_from((App { rows: final(self).rows, ..*old(self) })),
            old(self).wf() ==> final(self).wf(),
    {
        self.replace_row(row);
        self.refresh_list();
    }

    /// The title of the row under the cursor.
    pub fn current_title(&self) -> (res: Option<String>)
        requires
            self.wf(),
        ensures
            match self_current(*self) {
                None => res is None,
                Some(i) => res matches Some(t) && t@ == self.rows@[i].title@,
            },
    {
        match self.current_row_idx() {
            Some(i) => Some(self.rows[i].title.clone()),
            None => None,
        }
    }
}

/// Toggling the status five times in a row comes back to the first one, for
/// an entry whose status is one of the five.
pub proof fn lemma_status_toggle_cycle(i: int)
    requires
        0 <= i < STATUS_COUNT,
    ensures
        ({
            let n1 = next_status_index(status_name(i));
            let n2 = next_status_index(status_name(n1));
            let n3 = next_status_index(status_name(n2));
            let n4 = next_status_index(status_name(n3));
            next_status_index(status_name(n4)) == i
        }),
{
    lemma_status_names();
}

/// The state change of [`App::quit_app`].
pub open spec fn quit_app_done(pre: App, post: App) -> bool {
    post == (App { should_quit: true, ..pre })
}

/// The state change of [`App::cycle_type`].
pub open spec fn cycle_type_done(pre: App, post: App, forward: bool) -> bool {
    let avail = available_types_of(views(pre.types@), pre.rows@);
    &&& if avail.len() == 0 {
        post == pre
    } else {
        &&& opt_view(post.list.type_filter) == cycled_filter(avail, opt_view(pre.list.type_filter), forward)
        &&& post.refreshed_from(
            App { list: ListState { type_filter: post.list.type_filter, ..pre.list }, ..pre },
        )
    }
    &&& pre.wf() ==> post.wf()
}

/// The state change of [`App::toggle_pending`].
pub open spec fn toggle_pending_done(pre: App, post: App) -> bool {
    &&& post.refreshed_from(
        App { list: ListState { pending_only: !pre.list.pending_only, ..pre.list }, ..pre },
    )
    &&& pre.wf() ==> post.wf()
}

/// The state change of [`App::cycle_sort`].
pub open spec fn cycle_sort_done(pre: App, post: App) -> bool {
    &&& post.refreshed_from(App { list: ListState { sort: sort_after(pre.list.sort), ..pre.list }, ..pre })
    &&& pre.wf() ==> post.wf()
}

/// The state change of [`App::cursor_down`].
pub open spec fn cursor_down_done(pre: App, post: App) -> bool {
    post == if pre.list.cursor + 1 < pre.list.visible@.len() {
        App { list: ListState { cursor: (pre.list.cursor + 1) as usize, ..pre.list }, ..pre }
    } else {
        pre
    }
}

/// The state change of [`App::cursor_up`].
pub open spec fn cursor_up_done(pre: App, post: App) -> bool {
    post == if pre.list.cursor > 0 {
        App { list: ListState { cursor: (pre.list.cursor - 1) as usize, ..pre.list }, ..pre }
    } else {
        pre
    }
}

/// The state change of [`App::cursor_home`].
pub open spec fn cursor_home_done(pre: App, post: App) -> bool {
    post == (App { list: ListState { cursor: 0, ..pre.list }, ..pre })
}

/// The state change of [`App::cursor_end`].
pub open spec fn cursor_end_done(pre: App, post: App) -> bool {
    post == if pre.list.visible@.len() > 0 {
        App { list: ListState { cursor: (pre.list.visible@.len() - 1) as usize, ..pre.list }, ..pre }
    } else {
        pre
    }
}

/// The state change of [`App::begin_delete`].
pub open spec fn begin_delete_done(pre: App, post: App) -> bool {
    &&& post.wf()
    &&& match self_current(pre) {
        None => post == pre,
        Some(i) => {
            &&& post.modal matches Modal::Confirm(c)
                && c.message@ == "Delete "@ + pre.rows@[i].title@ + "?"@
                && c.action == ConfirmAction::DeleteRow(pre.rows@[i].id)
            &&& post == (App { modal: post.modal, ..pre })
        },
    }
}

/// The state change of [`App::begin_edit`].
pub open spec fn begin_edit_done(pre: App, post: App) -> bool {
    &&& post.wf()
    &&& match self_current(pre) {
        None => post == pre,
        Some(i) => {
            &&& post.modal matches Modal::Edit(m) && is_edit_form_for(m, pre.rows@[i], pre.types@)
            &&& post == (App { modal: post.modal, ..pre })
        },
    }
}

/// The state change of [`App::begin_add`].
pub open spec fn begin_add_done(pre: App, post: App) -> bool {
    &&& post.wf()
    &&& post.modal matches Modal::Add(m) && is_blank_add_form(m)
    &&& post == (App { modal: post.modal, ..pre })
}

/// The state change of [`App::begin_type_manager`].
pub open spec fn begin_type_manager_done(pre: App, post: App) -> bool {
    &&& post.wf()
    &&& post.modal matches Modal::TypeManager(m)
        && m.cursor == 0
        && m.mode == TypeManagerMode::Browse
        && m.buffer@.len() == 0
        && m.error is None
    &&& post == (App { modal: post.modal, ..pre })
}

/// `pre` with the type manager's form replaced by `m`.
pub open spec fn with_manager(pre: App, m: TypeManagerModal) -> App {
    App { modal: Modal::TypeManager(m), ..pre }
}

/// The state change of [`App::type_mgr_cursor_down`].
pub open spec fn type_mgr_cursor_down_done(pre: App, post: App) -> bool {
    match pre.modal {
        Modal::TypeManager(m) => post == if m.cursor + 1 < pre.types@.len() {
            with_manager(pre, TypeManagerModal { cursor: (m.cursor + 1) as usize, ..m })
        } else {
            pre
        },
        _ => post == pre,
    }
}

/// The state change of [`App::type_mgr_cursor_up`].
pub open spec fn type_mgr_cursor_up_done(pre: App, post: App) -> bool {
    match pre.modal {
        Modal::TypeManager(m) => post == if m.cursor > 0 {
            with_manager(pre, TypeManagerModal { cursor: (m.cursor - 1) as usize, ..m })
        } else {
            pre
        },
        _ => post == pre,
    }
}

/// The state change of [`App::type_mgr_cursor_home`].
pub open spec fn type_mgr_cursor_home_done(pre: App, post: App) -> bool {
    match pre.modal {
        Modal::TypeManager(m) => post == with_manager(pre, TypeManagerModal { cursor: 0, ..m }),
        _ => post == pre,
    }
}

/// The state change of [`App::type_mgr_cursor_end`].
pub open spec fn type_mgr_cursor_end_done(pre: App, post: App) -> bool {
    match pre.modal {
        Modal::TypeManager(m) => post == with_manager(
            pre,
            TypeManagerModal { cursor: clamp_cursor(usize::MAX, pre.types@.len()), ..m },
        ),
        _ => post == pre,
    }
}

/// The state change of [`App::type_mgr_begin_add`].
pub open spec fn type_mgr_begin_add_done(pre: App, post: App) -> bool {
    match pre.modal {
        Modal::TypeManager(m) => {
            &&& post.modal matches Modal::TypeManager(n)
                && n.mode == TypeManagerMode::AddInput
                && n.buffer@.len() == 0
                && n.error is None
                && n.cursor == m.cursor
            &&& post == (App { modal: post.modal, ..pre })
        },
        _ => post == pre,
    }
}

/// The state change of [`App::type_mgr_begin_rename`].
pub open spec fn type_mgr_begin_rename_done(pre: App, post: App) -> bool {
    match pre.modal {
        Modal::TypeManager(m) => if m.cursor < pre.types@.len() {
            &&& post.modal matches Modal::TypeManager(n)
                && n.mode == TypeManagerMode::RenameInput
                && n.buffer@ == pre.types@[m.cursor as int]@
                && n.error is None
                && n.cursor == m.cursor
            &&& post == (App { modal: post.modal, ..pre })
        } else {
            post == pre
        },
        _ => post == pre,
    }
}

/// The state change of [`App::type_mgr_input_cancel`].
pub open spec fn type_mgr_input_cancel_done(pre: App, post: App) -> bool {
    match pre.modal {
        Modal::TypeManager(_) => tm_browsing(pre, post, None) && post == (App { modal: post.modal, ..pre }),
        _ => post == pre,
    }
}

/// The state change of [`App::type_mgr_input_push`].
pub open spec fn type_mgr_input_push_done(pre: App, post: App, c: char) -> bool {
    match pre.modal {
        Modal::TypeManager(m) => {
            let buffer = if m.buffer@.len() < MAX_TYPE_LEN {
                m.buffer@.push(c)
            } else {
                m.buffer@
            };
            &&& post.modal matches Modal::TypeManager(n)
                && n.buffer@ == buffer
                && n == (TypeManagerModal { buffer: n.buffer, ..m })
            &&& post == (App { modal: post.modal, ..pre })
        },
        _ => post == pre,
    }
}

/// The state change of [`App::type_mgr_input_pop`].
pub open spec fn type_mgr_input_pop_done(pre: App, post: App) -> bool {
    match pre.modal {
        Modal::TypeManager(m) => {
            let buffer = if m.buffer@.len() > 0 {
                m.buffer@.drop_last()
            } else {
                m.buffer@
            };
            &&& post.modal matches Modal::TypeManager(n)
                && n.buffer@ == buffer
                && n == (TypeManagerModal { buffer: n.buffer, ..m })
            &&& post == (App { modal: post.modal, ..pre })
        },
        _ => post == pre,
    }
}

/// The state change of [`App::open_search`].
pub open spec fn open_search_done(pre: App, post: App) -> bool {
    &&& post.list.search_query@.len() == 0
    &&& post.refreshed_from(
        App {
            list: ListState { search_active: true, search_query: post.list.search_query, ..pre.list },
            ..pre
        },
    )
    &&& pre.wf() ==> post.wf()
}

/// The state change of [`App::close_search`].
pub open spec fn close_search_done(pre: App, post: App, clear: bool) -> bool {
    &&& clear ==> {
        &&& post.list.search_query@.len() == 0
        &&& post.refreshed_from(
            App {
                list: ListState { search_active: false, search_query: post.list.search_query, ..pre.list },
                ..pre
            },
        )
    }
    &&& !clear ==> post == (App { list: ListState { search_active: false, ..pre.list }, ..pre })
    &&& pre.wf() ==> post.wf()
}

/// The state change of [`App::search_push`].
pub open spec fn search_push_done(pre: App, post: App, c: char) -> bool {
    &&& post.list.search_query@ == pre.list.search_query@.push(c)
    &&& post.refreshed_from(
        App { list: ListState { search_query: post.list.search_query, ..pre.list }, ..pre },
    )
    &&& pre.wf() ==> post.wf()
}

/// The state change of [`App::search_pop`].
pub open spec fn search_pop_done(pre: App, post: App) -> bool {
    &&& post.list.search_query@ == if pre.list.search_query@.len() > 0 {
        pre.list.search_query@.drop_last()
    } else {
        pre.list.search_query@
    }
    &&& post.refreshed_from(
        App { list: ListState { search_query: post.list.search_query, ..pre.list }, ..pre },
    )
    &&& pre.wf() ==> post.wf()
}

/// The state change of [`App::switch_screen`].
pub open spec fn switch_screen_done(pre: App, post: App, screen: Screen) -> bool {
    post == (App { screen, ..pre })
}

/// The state change of [`App::toggle_stats`].
pub open spec fn toggle_stats_done(pre: App, post: App) -> bool {
    post == if pre.screen == Screen::Stats {
        App { screen: Screen::List, ..pre }
    } else {
        App { screen: Screen::Stats, stats_scroll: 0, ..pre }
    }
}

/// The state change of [`App::toggle_help`].
pub open spec fn toggle_help_done(pre: App, post: App) -> bool {
    post == (App { show_help: !pre.show_help, ..pre })
}

/// The state change of [`App::stats_scroll_by`]: the position moves by
/// `delta`, stops at the top, and is kept to sixteen bits.
pub open spec fn stats_scroll_by_done(pre: App, post: App, delta: i16) -> bool {
    let want = pre.stats_scroll + delta;
    post == (App { stats_scroll: (if want < 0 { 0 } else { want }) as u16, ..pre })
}

/// The state change of [`App::stats_scroll_top`].
pub open spec fn stats_scroll_top_done(pre: App, post: App) -> bool {
    post == (App { stats_scroll: 0, ..pre })
}

/// The state change of [`App::stats_scroll_bottom`].
pub open spec fn stats_scroll_bottom_done(pre: App, post: App) -> bool {
    post == (App { stats_scroll: pre.stats_content_height, ..pre })
}

/// The state change of [`App::skip`].
pub open spec fn skip_done(pre: App, post: App) -> bool {
    post == (App { compare: CompareState { last_result: None, ..pre.compare }, ..pre })
}

/// The state change of [`App::confirm_no`].
pub open spec fn confirm_no_done(pre: App, post: App) -> bool {
    &&& post == (App { modal: Modal::Hidden, ..pre })
    &&& pre.wf() ==> post.wf()
}

/// The row under the list cursor, if any.
pub open spec fn self_current(a: App) -> Option<int> {
    if a.list.cursor < a.list.visible@.len() {
        Some(a.list.visible@[a.list.cursor as int] as int)
    } else {
        None
    }
}

} // verus!
