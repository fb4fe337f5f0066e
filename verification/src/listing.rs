//! The list screen's view of the rows: which rows are shown for the current
//! filters and search text, and in which order for each sort mode.

use vstd::prelude::*;
use crate::model::{
    Row, STATUS_COUNT, STATUS_DONE, lemma_status_names, rankable, status_rank, status_rank_of,
};
use crate::text::{
    contains_chars, lemma_lex_asymmetric, lemma_lex_irreflexive, lemma_lex_total,
    lemma_lex_transitive, lex_less, lex_lt, lower_chars, lowercase, seq_contains, str_eq,
    chars_of,
};

verus! {

/// How the list is ordered.
#[derive(Clone, Copy, PartialEq, Eq, Structural)]
pub enum SortMode {
    /// By status; finished entries by Elo (highest first), others by title.
    Default,
    /// By Elo, highest first.
    Elo,
    /// By number of matches, most first, then by title.
    Matches,
    /// By date added, newest first, then by title.
    DateAdded,
    /// By title.
    Title,
}

/// The label shown for each sort mode.
pub open spec fn sort_label(m: SortMode) -> Seq<char> {
    match m {
        SortMode::Default => "default"@,
        SortMode::Elo => "elo desc"@,
        SortMode::Matches => "matches desc"@,
        SortMode::DateAdded => "date desc"@,
        SortMode::Title => "title"@,
    }
}

/// The sort mode that follows `m` in the cycle.
pub open spec fn sort_after(m: SortMode) -> SortMode {
    match m {
        SortMode::Default => SortMode::Elo,
        SortMode::Elo => SortMode::Matches,
        SortMode::Matches => SortMode::DateAdded,
        SortMode::DateAdded => SortMode::Title,
        SortMode::Title => SortMode::Default,
    }
}

impl SortMode {
    /// The label shown in the state line.
    pub fn label(self) -> (s: &'static str)
        ensures
            s@ == sort_label(self),
    {
        match self {
            SortMode::Default => "default",
            SortMode::Elo => "elo desc",
            SortMode::Matches => "matches desc",
            SortMode::DateAdded => "date desc",
            SortMode::Title => "title",
        }
    }

    /// The next mode of the cycle.
    pub fn next(self) -> (m: SortMode)
        ensures
            m == sort_after(self),
    {
        match self {
            SortMode::Default => SortMode::Elo,
            SortMode::Elo => SortMode::Matches,
            SortMode::Matches => SortMode::DateAdded,
            SortMode::DateAdded => SortMode::Title,
            SortMode::Title => SortMode::Default,
        }
    }
}

impl Default for SortMode {
    fn default() -> (m: SortMode)
        ensures
            m == SortMode::Default,
    {
        SortMode::Default
    }
}

/// Cycling the sort mode five times comes back to the start, and no fewer
/// steps do.
pub proof fn lemma_sort_cycle(m: SortMode)
    ensures
        sort_after(sort_after(sort_after(sort_after(sort_after(m))))) == m,
        sort_after(m) != m,
        sort_after(sort_after(m)) != m,
        sort_after(sort_after(sort_after(m))) != m,
        sort_after(sort_after(sort_after(sort_after(m)))) != m,
{
}

/// The list screen's state: the shown row indices in display order, the
/// cursor into them, and the filters.
pub struct ListState {
    pub visible: Vec<usize>,
    pub cursor: usize,
    pub search_query: String,
    pub search_active: bool,
    pub pending_only: bool,
    pub type_filter: Option<String>,
    pub sort: SortMode,
}

impl Default for ListState {
    fn default() -> (s: ListState)
        ensures
            s.visible@.len() == 0,
            s.cursor == 0,
            s.search_query@.len() == 0,
            !s.search_active,
            !s.pending_only,
            s.type_filter is None,
            s.sort == SortMode::Default,
    {
        ListState {
            visible: Vec::new(),
            cursor: 0,
            search_query: String::new(),
            search_active: false,
            pending_only: false,
            type_filter: None,
            sort: SortMode::Default,
        }
    }
}

/// The characters of an optional text.
pub open spec fn opt_view(o: Option<String>) -> Option<Seq<char>> {
    match o {
        Some(s) => Some(s@),
        None => None,
    }
}

/// Whether row `r` passes the filters: the type filter, "pending only"
/// (hides finished entries) and the search text `query`, which, unless it
/// is empty, must occur lower-cased in the lower-cased title or type.
pub open spec fn row_shown(
    r: Row,
    type_filter: Option<Seq<char>>,
    pending_only: bool,
    query: Seq<char>,
) -> bool {
    &&& (type_filter matches Some(t) ==> r.type_@ == t)
    &&& (pending_only ==> r.status@ != "done"@)
    &&& (query.len() > 0 ==> seq_contains(lowercase(r.title@), lowercase(query)) || seq_contains(
        lowercase(r.type_@),
        lowercase(query),
    ))
}

/// Three-way comparison of integers: -1, 0 or 1.
pub open spec fn order_int(a: int, b: int) -> int {
    if a < b {
        -1
    } else if a > b {
        1
    } else {
        0
    }
}

/// Three-way lexicographic comparison of texts: -1, 0 or 1.
pub open spec fn order_text(a: Seq<char>, b: Seq<char>) -> int {
    if lex_lt(a, b) {
        -1
    } else if lex_lt(b, a) {
        1
    } else {
        0
    }
}

/// Three-way comparison of two rows under a sort mode, before ties are
/// broken by position.
pub open spec fn row_order(mode: SortMode, x: Row, y: Row) -> int {
    let titles = order_text(lowercase(x.title@), lowercase(y.title@));
    match mode {
        SortMode::Default => {
            let c = order_int(status_rank_of(x.status@), status_rank_of(y.status@));
            if c != 0 {
                c
            } else if rankable(x.status@) {
                order_int(y.elo as int, x.elo as int)
            } else {
                titles
            }
        },
        SortMode::Elo => order_int(y.elo as int, x.elo as int),
        SortMode::Matches => {
            let c = order_int(y.matches as int, x.matches as int);
            if c != 0 {
                c
            } else {
                titles
            }
        },
        SortMode::DateAdded => {
            let c = order_text(y.date_added@, x.date_added@);
            if c != 0 {
                c
            } else {
                titles
            }
        },
        SortMode::Title => titles,
    }
}

/// Row `a` is listed before row `b`: it compares lower, or equal and it
/// comes first in `rows` (the sort is stable).
pub open spec fn sorts_before(rows: Seq<Row>, mode: SortMode, a: int, b: int) -> bool {
    let c = row_order(mode, rows[a], rows[b]);
    c < 0 || (c == 0 && a < b)
}

/// `s` lists row indices strictly in display order.
pub open spec fn sorted_by(rows: Seq<Row>, mode: SortMode, s: Seq<usize>) -> bool {
    forall|i: int, j: int|
        0 <= i < j < s.len() ==> sorts_before(rows, mode, #[trigger] s[i] as int, #[trigger] s[j] as int)
}

/// The shown rows of `rows` under `list`'s filters and sort, in display order.
pub open spec fn shows_exactly(rows: Seq<Row>, list: ListState, visible: Seq<usize>) -> bool {
    let q = list.search_query@;
    &&& forall|k: int|
        0 <= k < visible.len() ==> #[trigger] visible[k] < rows.len() && row_shown(
            rows[visible[k] as int],
            opt_view(list.type_filter),
            list.pending_only,
            q,
        )
    &&& forall|i: int|
        0 <= i < rows.len() && row_shown(rows[i], opt_view(list.type_filter), list.pending_only, q)
            ==> visible.contains(i as usize)
    &&& sorted_by(rows, list.sort, visible)
}

proof fn lemma_text_facts(a: Seq<char>, b: Seq<char>, c: Seq<char>)
    ensures
        order_text(a, b) == -order_text(b, a),
        order_text(b, c) == -order_text(c, b),
        order_text(a, c) == -order_text(c, a),
        order_text(a, b) == 0 <==> a == b,
        order_text(b, c) == 0 <==> b == c,
        order_text(a, c) == 0 <==> a == c,
        order_text(a, b) < 0 && order_text(b, c) < 0 ==> order_text(a, c) < 0,
{
    lemma_lex_total(a, b);
    lemma_lex_total(b, c);
    lemma_lex_total(a, c);
    lemma_lex_irreflexive(a);
    lemma_lex_irreflexive(b);
    lemma_lex_irreflexive(c);
    if lex_lt(a, b) {
        lemma_lex_asymmetric(a, b);
    }
    if lex_lt(b, a) {
        lemma_lex_asymmetric(b, a);
    }
    if lex_lt(b, c) {
        lemma_lex_asymmetric(b, c);
    }
    if lex_lt(c, b) {
        lemma_lex_asymmetric(c, b);
    }
    if lex_lt(a, c) {
        lemma_lex_asymmetric(a, c);
    }
    if lex_lt(c, a) {
        lemma_lex_asymmetric(c, a);
    }
    if lex_lt(a, b) && lex_lt(b, c) {
        lemma_lex_transitive(a, b, c);
    }
}

proof fn lemma_row_order_facts(mode: SortMode, x: Row, y: Row, z: Row)
    ensures
        row_order(mode, x, y) == -row_order(mode, y, x),
        -1 <= row_order(mode, x, y) <= 1,
        row_order(mode, x, y) <= 0 && row_order(mode, y, z) <= 0 ==> row_order(mode, x, z) <= 0,
        row_order(mode, x, y) < 0 && row_order(mode, y, z) <= 0 ==> row_order(mode, x, z) < 0,
        row_order(mode, x, y) <= 0 && row_order(mode, y, z) < 0 ==> row_order(mode, x, z) < 0,
{
    lemma_text_facts(lowercase(x.title@), lowercase(y.title@), lowercase(z.title@));
    lemma_text_facts(z.date_added@, y.date_added@, x.date_added@);
    lemma_status_names();
}

/// `sorts_before` is a strict total order on distinct positions.
pub proof fn lemma_sorts_before_order(rows: Seq<Row>, mode: SortMode, a: int, b: int, c: int)
    ensures
        !sorts_before(rows, mode, a, a),
        a != b ==> (sorts_before(rows, mode, a, b) || sorts_before(rows, mode, b, a)),
        sorts_before(rows, mode, a, b) ==> !sorts_before(rows, mode, b, a),
        sorts_before(rows, mode, a, b) && sorts_before(rows, mode, b, c) ==> sorts_before(
            rows,
            mode,
            a,
            c,
        ),
{
    lemma_row_order_facts(mode, rows[a], rows[b], rows[c]);
    lemma_row_order_facts(mode, rows[a], rows[a], rows[a]);
}

/// Two lists that each hold exactly the same row indices in display order
/// are the same list: the display order leaves no choice.
pub proof fn lemma_sorted_unique(rows: Seq<Row>, mode: SortMode, s: Seq<usize>, t: Seq<usize>)
    requires
        sorted_by(rows, mode, s),
        sorted_by(rows, mode, t),
        forall|x: usize| s.contains(x) <==> t.contains(x),
    ensures
        s == t,
    decreases s.len(),
{
    if s.len() == 0 {
        if t.len() > 0 {
            assert(t.contains(t[0]));
        }
        assert(s =~= t);
    } else {
        assert(s.contains(s[0]));
        let i = choose|i: int| 0 <= i < t.len() && t[i] == s[0];
        assert(t.contains(t[0]));
        let j = choose|j: int| 0 <= j < s.len() && s[j] == t[0];
        if i > 0 && j > 0 {
            assert(sorts_before(rows, mode, s[0] as int, s[j] as int));
            assert(sorts_before(rows, mode, t[0] as int, t[i] as int));
            lemma_sorts_before_order(rows, mode, s[0] as int, t[0] as int, s[0] as int);
        }
        assert(s[0] == t[0]);
        let s1 = s.drop_first();
        let t1 = t.drop_first();
        assert forall|x: usize| s1.contains(x) <==> t1.contains(x) by {
            if s1.contains(x) {
                let k = choose|k: int| 0 <= k < s1.len() && s1[k] == x;
                assert(s[k + 1] == x);
                assert(sorts_before(rows, mode, s[0] as int, s[k + 1] as int));
                lemma_sorts_before_order(rows, mode, x as int, x as int, x as int);
                assert(t.contains(x));
                let m = choose|m: int| 0 <= m < t.len() && t[m] == x;
                assert(m != 0);
                assert(t1[m - 1] == x);
            }
            if t1.contains(x) {
                let k = choose|k: int| 0 <= k < t1.len() && t1[k] == x;
                assert(t[k + 1] == x);
                assert(sorts_before(rows, mode, t[0] as int, t[k + 1] as int));
                lemma_sorts_before_order(rows, mode, x as int, x as int, x as int);
                assert(s.contains(x));
                let m = choose|m: int| 0 <= m < s.len() && s[m] == x;
                assert(m != 0);
                assert(s1[m - 1] == x);
            }
        }
        assert forall|a: int, b: int| 0 <= a < b < s1.len() implies sorts_before(rows, mode, #[trigger] s1[a] as int, #[trigger] s1[b] as int) by {
            assert(s1[a] == s[a + 1] && s1[b] == s[b + 1]);
        }
        assert forall|a: int, b: int| 0 <= a < b < t1.len() implies sorts_before(rows, mode, #[trigger] t1[a] as int, #[trigger] t1[b] as int) by {
            assert(t1[a] == t[a + 1] && t1[b] == t[b + 1]);
        }
        lemma_sorted_unique(rows, mode, s1, t1);
        assert(s.len() == t.len());
        assert forall|k: int| 0 <= k < s.len() implies s[k] == t[k] by {
            if k > 0 {
                assert(s[k] == s1[k - 1] && t[k] == t1[k - 1]);
            }
        }
        assert(s =~= t);
    }
}

/// In the default order, of two shown rows with the same finished status
/// (done or dropped), the one with the higher Elo comes first.
pub proof fn lemma_default_finished_by_elo(rows: Seq<Row>, list: ListState, v: Seq<usize>, i: int, j: int)
    requires
        shows_exactly(rows, list, v),
        list.sort == SortMode::Default,
        0 <= i < v.len(),
        0 <= j < v.len(),
        rows[v[i] as int].status@ == rows[v[j] as int].status@,
        rankable(rows[v[i] as int].status@),
        rows[v[i] as int].elo > rows[v[j] as int].elo,
    ensures
        i < j,
{
    let x = rows[v[i] as int];
    let y = rows[v[j] as int];
    assert(row_order(SortMode::Default, y, x) == 1);
    if j < i {
        assert(sorts_before(rows, SortMode::Default, v[j] as int, v[i] as int));
    }
}

/// In the default order, shown rows come by status (backlog, in progress,
/// on hold, done, dropped, then any other), and of two rows with the same
/// unfinished status the one whose lower-cased title comes first in string
/// order comes first.
pub proof fn lemma_default_by_status_then_title(rows: Seq<Row>, list: ListState, v: Seq<usize>, i: int, j: int)
    requires
        shows_exactly(rows, list, v),
        list.sort == SortMode::Default,
        0 <= i < v.len(),
        0 <= j < v.len(),
    ensures
        status_rank_of(rows[v[i] as int].status@) < status_rank_of(rows[v[j] as int].status@) ==> i < j,
        rows[v[i] as int].status@ == rows[v[j] as int].status@ && !rankable(rows[v[i] as int].status@)
            && lex_lt(lowercase(rows[v[i] as int].title@), lowercase(rows[v[j] as int].title@)) ==> i < j,
{
    let x = rows[v[i] as int];
    let y = rows[v[j] as int];
    lemma_text_facts(lowercase(x.title@), lowercase(y.title@), lowercase(y.title@));
    if j < i {
        assert(sorts_before(rows, SortMode::Default, v[j] as int, v[i] as int));
    }
}

/// In each of the other orders, of two shown rows: by Elo, the higher Elo
/// first, and of equal Elo the earlier row first; by matches, the one with
/// more matches first; by date, the later date (in string order) first; by
/// title, the lower-cased title first in string order.
pub proof fn lemma_sort_modes_order(rows: Seq<Row>, list: ListState, v: Seq<usize>, i: int, j: int)
    requires
        shows_exactly(rows, list, v),
        0 <= i < v.len(),
        0 <= j < v.len(),
    ensures
        ({
            let x = rows[v[i] as int];
            let y = rows[v[j] as int];
            &&& list.sort == SortMode::Elo && x.elo > y.elo ==> i < j
            &&& list.sort == SortMode::Elo && x.elo == y.elo && v[i] < v[j] ==> i < j
            &&& list.sort == SortMode::Matches && x.matches > y.matches ==> i < j
            &&& list.sort == SortMode::DateAdded && lex_lt(y.date_added@, x.date_added@) ==> i < j
            &&& list.sort == SortMode::Title && lex_lt(lowercase(x.title@), lowercase(y.title@)) ==> i < j
        }),
{
    let x = rows[v[i] as int];
    let y = rows[v[j] as int];
    lemma_text_facts(lowercase(x.title@), lowercase(y.title@), lowercase(y.title@));
    lemma_text_facts(x.date_added@, y.date_added@, y.date_added@);
    if j < i {
        assert(sorts_before(rows, list.sort, v[j] as int, v[i] as int));
    }
}

/// What the list needs to know of one row to order it.
struct SortKey {
    rank: usize,
    title: Vec<char>,
    date: Vec<char>,
    elo: u64,
    matches: u32,
}

spec fn key_of(k: SortKey, r: Row) -> bool {
    &&& k.rank as int == status_rank_of(r.status@)
    &&& k.title@ == lowercase(r.title@)
    &&& k.date@ == r.date_added@
    &&& k.elo == r.elo
    &&& k.matches == r.matches
}

spec fn keys_of(keys: Seq<SortKey>, rows: Seq<Row>) -> bool {
    &&& keys.len() == rows.len()
    &&& forall|i: int| 0 <= i < rows.len() ==> key_of(#[trigger] keys[i], rows[i])
}

fn sort_keys(rows: &Vec<Row>) -> (keys: Vec<SortKey>)
    ensures
        keys_of(keys@, rows@),
{
    let mut keys: Vec<SortKey> = Vec::new();
    let mut i: usize = 0;
    while i < rows.len()
        invariant
            i <= rows.len(),
            keys.len() == i,
            forall|k: int| 0 <= k < i ==> key_of(#[trigger] keys@[k], rows@[k]),
        decreases rows.len() - i,
    {
        let r = &rows[i];
        keys.push(
            SortKey {
                rank: status_rank(r.status.as_str()),
                title: lower_chars(r.title.as_str()),
                date: chars_of(r.date_added.as_str()),
                elo: r.elo,
                matches: r.matches,
            },
        );
        i += 1;
    }
    keys
}

fn int_order(a: u64, b: u64) -> (c: i8)
    ensures
        c as int == order_int(a as int, b as int),
{
    if a < b {
        -1
    } else if a > b {
        1
    } else {
        0
    }
}

fn text_order(a: &Vec<char>, b: &Vec<char>) -> (c: i8)
    ensures
        c as int == order_text(a@, b@),
{
    if lex_less(a, b) {
        -1
    } else if lex_less(b, a) {
        1
    } else {
        0
    }
}

fn key_order(mode: SortMode, x: &SortKey, y: &SortKey, Ghost(rx): Ghost<Row>, Ghost(ry): Ghost<Row>) -> (c: i8)
    requires
        key_of(*x, rx),
        key_of(*y, ry),
    ensures
        c as int == row_order(mode, rx, ry),
{
    proof {
        lemma_status_names();
    }
    match mode {
        SortMode::Default => {
            let c = int_order(x.rank as u64, y.rank as u64);
            if c != 0 {
                c
            } else if x.rank == 3 || x.rank == 4 {
                int_order(y.elo, x.elo)
            } else {
                text_order(&x.title, &y.title)
            }
        },
        SortMode::Elo => int_order(y.elo, x.elo),
        SortMode::Matches => {
            let c = int_order(y.matches as u64, x.matches as u64);
            if c != 0 {
                c
            } else {
                text_order(&x.title, &y.title)
            }
        },
        SortMode::DateAdded => {
            let c = text_order(&y.date, &x.date);
            if c != 0 {
                c
            } else {
                text_order(&x.title, &y.title)
            }
        },
        SortMode::Title => text_order(&x.title, &y.title),
    }
}

fn before(rows: &Vec<Row>, keys: &Vec<SortKey>, mode: SortMode, a: usize, b: usize) -> (res: bool)
    requires
        keys_of(keys@, rows@),
        a < rows.len(),
        b < rows.len(),
    ensures
        res == sorts_before(rows@, mode, a as int, b as int),
{
    let c = key_order(mode, &keys[a], &keys[b], Ghost(rows@[a as int]), Ghost(rows@[b as int]));
    c < 0 || (c == 0 && a < b)
}

/// Orders distinct row indices by `sorts_before` (insertion sort).
fn sort_indices(rows: &Vec<Row>, keys: &Vec<SortKey>, mode: SortMode, input: Vec<usize>) -> (out: Vec<usize>)
    requires
        keys_of(keys@, rows@),
        forall|k: int| 0 <= k < input.len() ==> #[trigger] input@[k] < rows.len(),
        input@.no_duplicates(),
    ensures
        sorted_by(rows@, mode, out@),
        forall|x: usize| out@.contains(x) <==> input@.contains(x),
{
    let mut out: Vec<usize> = Vec::new();
    let mut k: usize = 0;
    while k < input.len()
        invariant
            keys_of(keys@, rows@),
            k <= input.len(),
            forall|j: int| 0 <= j < input.len() ==> #[trigger] input@[j] < rows.len(),
            input@.no_duplicates(),
            sorted_by(rows@, mode, out@),
            forall|j: int| 0 <= j < out.len() ==> #[trigger] out@[j] < rows.len(),
            forall|x: usize| out@.contains(x) <==> input@.take(k as int).contains(x),
        decreases input.len() - k,
    {
        let x = input[k];
        let mut p: usize = 0;
        while p < out.len() && before(rows, keys, mode, out[p], x)
            invariant
                keys_of(keys@, rows@),
                x < rows.len(),
                p <= out.len(),
                forall|j: int| 0 <= j < out.len() ==> #[trigger] out@[j] < rows.len(),
                forall|j: int| 0 <= j < p ==> sorts_before(rows@, mode, #[trigger] out@[j] as int, x as int),
            decreases out.len() - p,
        {
            p += 1;
        }
        proof {
            assert(!input@.take(k as int).contains(x)) by {
                if input@.take(k as int).contains(x) {
                    let j = choose|j: int| 0 <= j < k && input@.take(k as int)[j] == x;
                    assert(input@[j] == input@[k as int]);
                }
            }
            assert(!out@.contains(x));
            if p < out.len() {
                lemma_sorts_before_order(rows@, mode, out@[p as int] as int, x as int, 0);
                assert(sorts_before(rows@, mode, x as int, out@[p as int] as int));
            }
            assert forall|j: int| p <= j < out.len() implies sorts_before(
                rows@,
                mode,
                x as int,
                #[trigger] out@[j] as int,
            ) by {
                if j > p {
                    lemma_sorts_before_order(
                        rows@,
                        mode,
                        x as int,
                        out@[p as int] as int,
                        out@[j] as int,
                    );
                }
            }
        }
        let ghost old_out = out@;
        out.insert(p, x);
        proof {
            assert forall|i: int, j: int| 0 <= i < j < out@.len() implies sorts_before(
                rows@,
                mode,
                #[trigger] out@[i] as int,
                #[trigger] out@[j] as int,
            ) by {
                if j < p {
                    assert(out@[i] == old_out[i] && out@[j] == old_out[j]);
                } else if j == p {
                    assert(out@[i] == old_out[i]);
                } else if i < p {
                    assert(out@[i] == old_out[i] && out@[j] == old_out[j - 1]);
                    assert(sorts_before(rows@, mode, old_out[i] as int, old_out[j - 1] as int));
                } else if i == p {
                    assert(out@[j] == old_out[j - 1]);
                } else {
                    assert(out@[i] == old_out[i - 1] && out@[j] == old_out[j - 1]);
                    assert(sorts_before(rows@, mode, old_out[i - 1] as int, old_out[j - 1] as int));
                }
            }
            assert forall|y: usize| out@.contains(y) implies input@.take(k + 1).contains(y) by {
                let j = choose|j: int| 0 <= j < out@.len() && out@[j] == y;
                if j == p {
                    assert(input@.take(k + 1)[k as int] == x);
                } else {
                    let oi = if j < p { j } else { j - 1 };
                    assert(old_out[oi] == y);
                    assert(old_out.contains(y));
                    assert(input@.take(k as int).contains(y));
                    let m = choose|m: int| 0 <= m < k && input@.take(k as int)[m] == y;
                    assert(input@.take(k + 1)[m] == y);
                }
            }
            assert forall|y: usize| input@.take(k + 1).contains(y) implies out@.contains(y) by {
                let m = choose|m: int| 0 <= m < k + 1 && #[trigger] input@.take(k + 1)[m] == y;
                if m == k {
                    assert(out@[p as int] == x);
                } else {
                    assert(input@.take(k as int)[m] == y);
                    assert(input@.take(k as int).contains(y));
                    assert(old_out.contains(y));
                    let j = choose|j: int| 0 <= j < old_out.len() && old_out[j] == y;
                    if j < p {
                        assert(out@[j] == y);
                    } else {
                        assert(out@[j + 1] == y);
                    }
                }
            }
            assert forall|j: int| 0 <= j < out@.len() implies #[trigger] out@[j] < rows.len() by {
                if j < p {
                    assert(out@[j] == old_out[j]);
                } else if j > p {
                    assert(out@[j] == old_out[j - 1]);
                }
            }
        }
        k += 1;
    }
    assert(input@.take(input.len() as int) =~= input@);
    out
}

/// The indices of the rows that pass the list's filters, in row order.
fn filtered_indices(rows: &Vec<Row>, list: &ListState) -> (out: Vec<usize>)
    ensures
        forall|k: int|
            0 <= k < out.len() ==> #[trigger] out@[k] < rows.len() && row_shown(
                rows@[out@[k] as int],
                opt_view(list.type_filter),
                list.pending_only,
                list.search_query@,
            ),
        forall|i: int|
            0 <= i < rows.len() && row_shown(
                rows@[i],
                opt_view(list.type_filter),
                list.pending_only,
                list.search_query@,
            ) ==> out@.contains(i as usize),
        forall|a: int, b: int| 0 <= a < b < out.len() ==> #[trigger] out@[a] < #[trigger] out@[b],
{
    let ghost q = list.search_query@;
    let query = lower_chars(list.search_query.as_str());
    let mut out: Vec<usize> = Vec::new();
    let mut i: usize = 0;
    proof {
        reveal_strlit("done");
    }
    while i < rows.len()
        invariant
            i <= rows.len(),
            query@ == lowercase(q),
            q == list.search_query@,
            query@.len() == 0 <==> q.len() == 0,
            forall|k: int|
                0 <= k < out.len() ==> #[trigger] out@[k] < i && row_shown(
                    rows@[out@[k] as int],
                    opt_view(list.type_filter),
                    list.pending_only,
                    q,
                ),
            forall|j: int|
                0 <= j < i && row_shown(rows@[j], opt_view(list.type_filter), list.pending_only, q)
                    ==> out@.contains(j as usize),
            forall|a: int, b: int| 0 <= a < b < out.len() ==> #[trigger] out@[a] < #[trigger] out@[b],
        decreases rows.len() - i,
    {
        let r = &rows[i];
        let type_ok = match &list.type_filter {
            Some(t) => r.type_ == *t,
            None => true,
        };
        let pending_ok = !list.pending_only || !str_eq(r.status.as_str(), STATUS_DONE);
        let query_ok = query.len() == 0 || contains_chars(&lower_chars(r.title.as_str()), &query)
            || contains_chars(&lower_chars(r.type_.as_str()), &query);
        if type_ok && pending_ok && query_ok {
            let ghost before = out@;
            out.push(i);
            proof {
                assert forall|j: int|
                    0 <= j <= i && row_shown(rows@[j], opt_view(list.type_filter), list.pending_only, q)
                        implies out@.contains(j as usize) by {
                    if j < i {
                        let m = choose|m: int| 0 <= m < before.len() && before[m] == j as usize;
                        assert(out@[m] == j as usize);
                    } else {
                        assert(out@[out@.len() - 1] == i);
                    }
                }
            }
        }
        i += 1;
    }
    out
}

/// Distinct row indices put in display order for `mode`.
pub fn sort_rows(rows: &Vec<Row>, mode: SortMode, input: Vec<usize>) -> (out: Vec<usize>)
    requires
        forall|k: int| 0 <= k < input.len() ==> #[trigger] input@[k] < rows.len(),
        input@.no_duplicates(),
    ensures
        sorted_by(rows@, mode, out@),
        forall|x: usize| out@.contains(x) <==> input@.contains(x),
{
    let keys = sort_keys(rows);
    sort_indices(rows, &keys, mode, input)
}

/// The rows shown under `list`'s filters, ordered by its sort mode.
pub fn visible_rows(rows: &Vec<Row>, list: &ListState) -> (out: Vec<usize>)
    ensures
        shows_exactly(rows@, *list, out@),
{
    let filtered = filtered_indices(rows, list);
    proof {
        assert forall|a: int, b: int| 0 <= a < filtered.len() && 0 <= b < filtered.len() && a != b
            implies filtered@[a] != filtered@[b] by {
            if a < b {
                assert(filtered@[a] < filtered@[b]);
            } else {
                assert(filtered@[b] < filtered@[a]);
            }
        }
    }
    let keys = sort_keys(rows);
    let ghost fl = filtered@;
    let out = sort_indices(rows, &keys, list.sort, filtered);
    proof {
        assert forall|k: int| 0 <= k < out.len() implies #[trigger] out@[k] < rows.len() && row_shown(
            rows@[out@[k] as int],
            opt_view(list.type_filter),
            list.pending_only,
            list.search_query@,
        ) by {
            assert(out@.contains(out@[k]));
            assert(fl.contains(out@[k]));
        }
    }
    out
}

} // verus!
