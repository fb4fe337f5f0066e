//! The figures on the statistics screen: totals, counts per status, the
//! types with finished entries and each type's entries by Elo.

use vstd::prelude::*;
use crate::app::{find_text, has_type, views, with_row_types};
use crate::listing::{SortMode, lemma_sorted_unique, sort_rows, sorted_by};
use crate::model::{Row, STATUS_COUNT, is_rankable, rankable, status_at, status_name};
use crate::text::str_eq;
use vstd::string::StringExecFns;

verus! {

/// The sum of the rows' match counts.
pub open spec fn matches_sum(rows: Seq<Row>) -> nat
    decreases rows.len(),
{
    if rows.len() == 0 {
        0
    } else {
        matches_sum(rows.drop_last()) + rows.last().matches as nat
    }
}

/// The finished rows, in order.
pub open spec fn rankable_rows(rows: Seq<Row>) -> Seq<Row> {
    rows.filter(|r: Row| rankable(r.status@))
}

/// The number of rows with status `s`.
pub open spec fn status_count(rows: Seq<Row>, s: Seq<char>) -> nat
    decreases rows.len(),
{
    if rows.len() == 0 {
        0
    } else {
        status_count(rows.drop_last(), s) + if rows.last().status@ == s {
            1nat
        } else {
            0nat
        }
    }
}

/// The types listed on the statistics screen: each catalogue type that a
/// finished row has (in catalogue order, as often as the catalogue lists
/// it), then the other types of finished rows, in row order, once each.
pub open spec fn stats_types(types: Seq<Seq<char>>, rows: Seq<Row>) -> Seq<Seq<char>> {
    with_row_types(types.filter(|t: Seq<char>| has_type(rankable_rows(rows), t)), rankable_rows(rows))
}

/// The statistics screen's figures.
pub struct StatsSummary {
    /// The number of rows.
    pub total: usize,
    /// The finished rows (done or dropped), in row order.
    pub rankable: Vec<usize>,
    /// The matches of all rows.
    pub total_matches: u128,
    /// The matches of the finished rows.
    pub rankable_matches: u128,
    /// The number of rows with each status, in status order.
    pub status_counts: Vec<usize>,
    /// The types to show, see [`stats_types`].
    pub types: Vec<String>,
}

proof fn lemma_filter_push<A>(s: Seq<A>, x: A, p: spec_fn(A) -> bool)
    ensures
        s.push(x).filter(p) == if p(x) {
            s.filter(p).push(x)
        } else {
            s.filter(p)
        },
{
    reveal_with_fuel(Seq::<_>::filter, 1);
    assert(s.push(x).drop_last() =~= s);
}

/// Computes the statistics of `rows` for the catalogue `types`.
pub fn summarize(rows: &Vec<Row>, types: &Vec<String>) -> (out: StatsSummary)
    ensures
        out.total == rows@.len(),
        out.rankable@.len() == rankable_rows(rows@).len(),
        forall|k: int|
            0 <= k < out.rankable@.len() ==> #[trigger] out.rankable@[k] < rows@.len() && rows@[out.rankable@[k] as int]
                == rankable_rows(rows@)[k],
        forall|a: int, b: int|
            0 <= a < b < out.rankable@.len() ==> #[trigger] out.rankable@[a] < #[trigger] out.rankable@[b],
        out.total_matches == matches_sum(rows@),
        out.rankable_matches == matches_sum(rankable_rows(rows@)),
        out.status_counts@.len() == STATUS_COUNT,
        forall|s: int|
            0 <= s < STATUS_COUNT ==> #[trigger] out.status_counts@[s] == status_count(rows@, status_name(s)),
        views(out.types@) == stats_types(views(types@), rows@),
{
    let ghost rp = |r: Row| rankable(r.status@);
    let mut ranked: Vec<usize> = Vec::new();
    let mut rank_rows: Vec<usize> = Vec::new();
    let mut total_matches: u128 = 0;
    let mut rankable_matches: u128 = 0;
    let mut i: usize = 0;
    while i < rows.len()
        invariant
            i <= rows.len(),
            rp == (|r: Row| rankable(r.status@)),
            ranked@.len() == rows@.take(i as int).filter(rp).len(),
            forall|k: int|
                0 <= k < ranked@.len() ==> #[trigger] ranked@[k] < i && rows@[ranked@[k] as int]
                    == rows@.take(i as int).filter(rp)[k],
            forall|a: int, b: int| 0 <= a < b < ranked@.len() ==> #[trigger] ranked@[a] < #[trigger] ranked@[b],
            total_matches == matches_sum(rows@.take(i as int)),
            rankable_matches == matches_sum(rows@.take(i as int).filter(rp)),
            total_matches <= i * 0xffff_ffff,
            rankable_matches <= total_matches,
        decreases rows.len() - i,
    {
        let r = &rows[i];
        proof {
            assert(rows@.take(i + 1) =~= rows@.take(i as int).push(rows@[i as int]));
            assert(rows@.take(i + 1).drop_last() =~= rows@.take(i as int));
            lemma_filter_push(rows@.take(i as int), rows@[i as int], rp);
        }
        total_matches = total_matches + r.matches as u128;
        if is_rankable(r.status.as_str()) {
            ranked.push(i);
            rankable_matches = rankable_matches + r.matches as u128;
            assert(rows@.take(i + 1).filter(rp).drop_last() =~= rows@.take(i as int).filter(rp));
        }
        i += 1;
        assert(total_matches <= i * 0xffff_ffff) by (nonlinear_arith)
            requires
                total_matches <= (i - 1) * 0xffff_ffff + 0xffff_ffff,
        ;
    }
    assert(rows@.take(rows.len() as int) =~= rows@);
    let mut status_counts: Vec<usize> = Vec::new();
    let mut s: usize = 0;
    while s < STATUS_COUNT
        invariant
            s <= STATUS_COUNT,
            status_counts@.len() == s,
            forall|k: int| 0 <= k < s ==> #[trigger] status_counts@[k] == status_count(rows@, status_name(k)),
        decreases STATUS_COUNT - s,
    {
        let name = status_at(s);
        let mut c: usize = 0;
        let mut j: usize = 0;
        while j < rows.len()
            invariant
                j <= rows.len(),
                c == status_count(rows@.take(j as int), name@),
                c <= j,
            decreases rows.len() - j,
        {
            assert(rows@.take(j + 1).drop_last() =~= rows@.take(j as int));
            if str_eq(rows[j].status.as_str(), name) {
                c += 1;
            }
            j += 1;
        }
        assert(rows@.take(rows.len() as int) =~= rows@);
        status_counts.push(c);
        s += 1;
    }
    let ghost rr = rankable_rows(rows@);
    let ghost tp = |t: Seq<char>| has_type(rr, t);
    let ghost tv = views(types@);
    let mut out_types: Vec<String> = Vec::new();
    let mut k: usize = 0;
    while k < types.len()
        invariant
            k <= types.len(),
            rr == rankable_rows(rows@),
            ranked@.len() == rr.len(),
            forall|m: int| 0 <= m < ranked@.len() ==> #[trigger] ranked@[m] < rows@.len() && rows@[ranked@[m] as int] == rr[m],
            tp == (|t: Seq<char>| has_type(rr, t)),
            tv == views(types@),
            views(out_types@) == tv.take(k as int).filter(tp),
        decreases types.len() - k,
    {
        let t = &types[k];
        let mut found = false;
        let mut m: usize = 0;
        while m < ranked.len()
            invariant
                m <= ranked.len(),
                ranked@.len() == rr.len(),
                forall|q: int| 0 <= q < ranked@.len() ==> #[trigger] ranked@[q] < rows@.len() && rows@[ranked@[q] as int] == rr[q],
                found == exists|q: int| 0 <= q < m && #[trigger] rr[q].type_@ == t@,
            decreases ranked.len() - m,
        {
            if rows[ranked[m]].type_ == *t {
                found = true;
            }
            m += 1;
        }
        proof {
            assert(tv.take(k + 1) =~= tv.take(k as int).push(t@));
            lemma_filter_push(tv.take(k as int), t@, tp);
        }
        if found {
            out_types.push(t.clone());
            assert(views(out_types@) =~= tv.take(k as int).filter(tp).push(t@));
        }
        k += 1;
    }
    assert(tv.take(types.len() as int) =~= tv);
    let ghost base = views(out_types@);
    let mut q: usize = 0;
    while q < ranked.len()
        invariant
            q <= ranked.len(),
            ranked@.len() == rr.len(),
            forall|m: int| 0 <= m < ranked@.len() ==> #[trigger] ranked@[m] < rows@.len() && rows@[ranked@[m] as int] == rr[m],
            views(out_types@) == with_row_types(base, rr.take(q as int)),
        decreases ranked.len() - q,
    {
        let t = &rows[ranked[q]].type_;
        assert(rr.take(q + 1).drop_last() =~= rr.take(q as int));
        assert(rr.take(q + 1).last() == rr[q as int]);
        let seen = find_text(&out_types, t).is_some();
        proof {
            crate::app::lemma_first_where_contains(views(out_types@), t@);
        }
        if !seen {
            out_types.push(t.clone());
            assert(views(out_types@) =~= with_row_types(base, rr.take(q + 1)));
        }
        q += 1;
    }
    assert(rr.take(ranked.len() as int) =~= rr);
    StatsSummary {
        total: rows.len(),
        rankable: ranked,
        total_matches,
        rankable_matches,
        status_counts,
        types: out_types,
    }
}

/// The finished rows of type `t`, highest Elo first (ties in row order).
pub fn entries_by_elo(rows: &Vec<Row>, t: &String) -> (out: Vec<usize>)
    ensures
        sorted_by(rows@, SortMode::Elo, out@),
        forall|i: usize|
            out@.contains(i) <==> (i < rows@.len() && rankable(rows@[i as int].status@)
                && rows@[i as int].type_@ == t@),
{
    let mut picked: Vec<usize> = Vec::new();
    let mut i: usize = 0;
    while i < rows.len()
        invariant
            i <= rows.len(),
            forall|k: int| 0 <= k < picked@.len() ==> #[trigger] picked@[k] < i,
            forall|a: int, b: int| 0 <= a < b < picked@.len() ==> #[trigger] picked@[a] < #[trigger] picked@[b],
            forall|x: usize|
                picked@.contains(x) <==> (x < i && rankable(rows@[x as int].status@) && rows@[x as int].type_@ == t@),
        decreases rows.len() - i,
    {
        if is_rankable(rows[i].status.as_str()) && rows[i].type_ == *t {
            let ghost before = picked@;
            picked.push(i);
            proof {
                assert forall|x: usize| picked@.contains(x) <==> (x < i + 1 && rankable(rows@[x as int].status@)
                    && rows@[x as int].type_@ == t@) by {
                    if picked@.contains(x) && x != i {
                        let m = choose|m: int| 0 <= m < picked@.len() && picked@[m] == x;
                        assert(before[m] == x);
                    }
                    if before.contains(x) {
                        let m = choose|m: int| 0 <= m < before.len() && before[m] == x;
                        assert(picked@[m] == x);
                    }
                    if x == i {
                        assert(picked@[picked@.len() - 1] == i);
                    }
                }
            }
        }
        i += 1;
    }
    proof {
        assert forall|a: int, b: int| 0 <= a < picked@.len() && 0 <= b < picked@.len() && a != b
            implies picked@[a] != picked@[b] by {
            if a < b {
                assert(picked@[a] < picked@[b]);
            } else {
                assert(picked@[b] < picked@[a]);
            }
        }
        assert forall|k: int| 0 <= k < picked@.len() implies #[trigger] picked@[k] < rows@.len() by {}
    }
    sort_rows(rows, SortMode::Elo, picked)
}

/// `s` lists the finished rows of type `t` in Elo order (see
/// [`entries_by_elo`]).
pub open spec fn ranked_ok(rows: Seq<Row>, t: Seq<char>, s: Seq<usize>) -> bool {
    &&& sorted_by(rows, SortMode::Elo, s)
    &&& forall|i: usize|
        s.contains(i) <==> (i < rows.len() && rankable(rows[i as int].status@) && rows[i as int].type_@ == t)
}

/// The finished rows of type `t`, highest Elo first (ties in row order).
pub open spec fn elo_ranked(rows: Seq<Row>, t: Seq<char>) -> Seq<usize> {
    choose|s: Seq<usize>| ranked_ok(rows, t, s)
}

/// One line of the statistics screen.
pub enum StatsLine {
    Heading(String),
    /// A label and a count.
    Count(String, u128),
    /// The mean number of matches of the finished rows: their matches and
    /// their number.
    Average(u128, usize),
    Blank,
    /// A status and the number of rows with it.
    Status(String, usize),
    /// A type with finished rows.
    TypeName(String),
    /// The spread of one type's ratings: its finished rows by Elo.
    Spread(Vec<usize>),
    /// One of a type's five best rows: its rank (from 1) and position.
    Entry(usize, usize),
}

/// The text of a [`StatsLine`].
pub enum StatsText {
    Heading(Seq<char>),
    Count(Seq<char>, nat),
    Average(nat, nat),
    Blank,
    Status(Seq<char>, nat),
    TypeName(Seq<char>),
    Spread(Seq<usize>),
    Entry(nat, usize),
}

impl View for StatsLine {
    type V = StatsText;

    open spec fn view(&self) -> StatsText {
        match self {
            StatsLine::Heading(h) => StatsText::Heading(h@),
            StatsLine::Count(l, n) => StatsText::Count(l@, *n as nat),
            StatsLine::Average(m, n) => StatsText::Average(*m as nat, *n as nat),
            StatsLine::Blank => StatsText::Blank,
            StatsLine::Status(s, n) => StatsText::Status(s@, *n as nat),
            StatsLine::TypeName(t) => StatsText::TypeName(t@),
            StatsLine::Spread(v) => StatsText::Spread(v@),
            StatsLine::Entry(k, i) => StatsText::Entry(*k as nat, *i),
        }
    }
}

/// The texts of a list of statistics lines.
pub open spec fn stats_texts(lines: Seq<StatsLine>) -> Seq<StatsText> {
    lines.map_values(|l: StatsLine| l@)
}

/// At most the first five of `s`.
pub open spec fn top_five(s: Seq<usize>) -> Seq<usize> {
    if s.len() <= 5 {
        s
    } else {
        s.take(5)
    }
}

/// The lines of one type: its name, its spread, and its best five rows.
pub open spec fn type_block(rows: Seq<Row>, t: Seq<char>) -> Seq<StatsText> {
    let ranked = elo_ranked(rows, t);
    let top = top_five(ranked);
    seq![StatsText::TypeName(t), StatsText::Spread(ranked)] + Seq::new(
        top.len(),
        |k: int| StatsText::Entry((k + 1) as nat, top[k]),
    )
}

/// The lines of each type of `ts`, in order.
pub open spec fn type_blocks(rows: Seq<Row>, ts: Seq<Seq<char>>) -> Seq<StatsText>
    decreases ts.len(),
{
    if ts.len() == 0 {
        Seq::empty()
    } else {
        type_blocks(rows, ts.drop_last()) + type_block(rows, ts.last())
    }
}

/// The statistics screen: the totals, the counts per status, and, when
/// some type has finished rows, each such type (see [`stats_types`]) with
/// its spread and its best five rows by Elo.
pub open spec fn stats_lines_of(rows: Seq<Row>, types: Seq<Seq<char>>) -> Seq<StatsText> {
    let ts = stats_types(types, rows);
    seq![
        StatsText::Heading("Global"@),
        StatsText::Count("Total entries:"@, rows.len()),
        StatsText::Count("Rankable (done/dropped):"@, rankable_rows(rows).len()),
        StatsText::Count("Total matches:"@, matches_sum(rows)),
        StatsText::Average(matches_sum(rankable_rows(rows)), rankable_rows(rows).len()),
        StatsText::Blank,
        StatsText::Heading("By status"@),
    ] + Seq::new(STATUS_COUNT as nat, |s: int| StatsText::Status(status_name(s), status_count(rows, status_name(s))))
        + seq![StatsText::Blank] + if ts.len() == 0 {
        Seq::empty()
    } else {
        seq![StatsText::Heading("Top per type"@)] + type_blocks(rows, ts)
    }
}

/// The matches of the rows whose status is done or dropped, and of the
/// others, row by row.
pub open spec fn split_matches(rows: Seq<Row>) -> (nat, nat)
    decreases rows.len(),
{
    if rows.len() == 0 {
        (0, 0)
    } else {
        let (f, o) = split_matches(rows.drop_last());
        let m = rows.last().matches as nat;
        if rows.last().status@ == "done"@ || rows.last().status@ == "dropped"@ {
            (f + m, o)
        } else {
            (f, o + m)
        }
    }
}

/// The number of rows whose status is done or dropped.
pub open spec fn finished_count(rows: Seq<Row>) -> nat
    decreases rows.len(),
{
    if rows.len() == 0 {
        0
    } else {
        finished_count(rows.drop_last()) + if rows.last().status@ == "done"@ || rows.last().status@
            == "dropped"@ {
            1nat
        } else {
            0nat
        }
    }
}

proof fn lemma_finished_parts(rows: Seq<Row>)
    ensures
        matches_sum(rankable_rows(rows)) == split_matches(rows).0,
        matches_sum(rows) == split_matches(rows).0 + split_matches(rows).1,
        rankable_rows(rows).len() == finished_count(rows),
    decreases rows.len(),
{
    if rows.len() > 0 {
        let prev = rows.drop_last();
        lemma_finished_parts(prev);
        assert(rows == prev.push(rows.last()));
        lemma_filter_push(prev, rows.last(), |r: Row| rankable(r.status@));
        let f = rankable_rows(prev);
        if rankable(rows.last().status@) {
            assert(f.push(rows.last()).drop_last() =~= f);
        }
    }
}

/// The statistics' average line is the mean number of matches of the
/// finished rows (done or dropped): the matches of those rows over their
/// number. The matches of the other rows make up the rest of the total;
/// the first counts are the number of rows and of finished rows.
pub proof fn lemma_stats_average(rows: Seq<Row>, types: Seq<Seq<char>>)
    ensures
        stats_lines_of(rows, types)[1] == StatsText::Count("Total entries:"@, rows.len()),
        stats_lines_of(rows, types)[2] == StatsText::Count("Rankable (done/dropped):"@, finished_count(rows)),
        stats_lines_of(rows, types)[4] == StatsText::Average(split_matches(rows).0, finished_count(rows)),
        stats_lines_of(rows, types)[3] == StatsText::Count(
            "Total matches:"@,
            split_matches(rows).0 + split_matches(rows).1,
        ),
{
    lemma_finished_parts(rows);
}

fn push_stats(lines: &mut Vec<StatsLine>, l: StatsLine)
    ensures
        stats_texts(final(lines)@) == stats_texts(old(lines)@).push(l@),
{
    let ghost before = lines@;
    lines.push(l);
    assert(stats_texts(lines@) =~= stats_texts(before).push(l@));
}

proof fn lemma_elo_ranked(rows: Seq<Row>, t: Seq<char>, s: Seq<usize>)
    requires
        ranked_ok(rows, t, s),
    ensures
        elo_ranked(rows, t) == s,
{
    let c = elo_ranked(rows, t);
    assert(ranked_ok(rows, t, c));
    lemma_sorted_unique(rows, SortMode::Elo, c, s);
}

/// Builds the statistics screen's lines for `rows` and the catalogue
/// `types` (see [`stats_lines_of`]); their number is the screen's height.
pub fn stats_lines(rows: &Vec<Row>, types: &Vec<String>) -> (out: Vec<StatsLine>)
    ensures
        stats_texts(out@) == stats_lines_of(rows@, views(types@)),
{
    let s = summarize(rows, types);
    let mut lines: Vec<StatsLine> = Vec::new();
    assert(stats_texts(lines@) =~= Seq::<StatsText>::empty());
    push_stats(&mut lines, StatsLine::Heading(String::from_str("Global")));
    push_stats(&mut lines, StatsLine::Count(String::from_str("Total entries:"), s.total as u128));
    push_stats(&mut lines, StatsLine::Count(String::from_str("Rankable (done/dropped):"), s.rankable.len() as u128));
    push_stats(&mut lines, StatsLine::Count(String::from_str("Total matches:"), s.total_matches));
    push_stats(&mut lines, StatsLine::Average(s.rankable_matches, s.rankable.len()));
    push_stats(&mut lines, StatsLine::Blank);
    push_stats(&mut lines, StatsLine::Heading(String::from_str("By status")));
    let ghost head = stats_texts(lines@);
    let ghost status_part = Seq::new(
        STATUS_COUNT as nat,
        |k: int| StatsText::Status(status_name(k), status_count(rows@, status_name(k))),
    );
    let mut i: usize = 0;
    while i < STATUS_COUNT
        invariant
            i <= STATUS_COUNT,
            s.status_counts@.len() == STATUS_COUNT,
            forall|k: int| 0 <= k < STATUS_COUNT ==> #[trigger] s.status_counts@[k] == status_count(rows@, status_name(k)),
            status_part == Seq::new(
                STATUS_COUNT as nat,
                |k: int| StatsText::Status(status_name(k), status_count(rows@, status_name(k))),
            ),
            stats_texts(lines@) =~= head + status_part.take(i as int),
        decreases STATUS_COUNT - i,
    {
        push_stats(&mut lines, StatsLine::Status(String::from_str(status_at(i)), s.status_counts[i]));
        i += 1;
        assert(stats_texts(lines@) =~= head + status_part.take(i as int));
    }
    assert(status_part.take(STATUS_COUNT as int) =~= status_part);
    push_stats(&mut lines, StatsLine::Blank);
    let ghost ts = stats_types(views(types@), rows@);
    let ghost mid = stats_texts(lines@);
    if s.types.len() > 0 {
        push_stats(&mut lines, StatsLine::Heading(String::from_str("Top per type")));
        let ghost start = stats_texts(lines@);
        assert(ts.take(0) =~= Seq::<Seq<char>>::empty());
        let mut j: usize = 0;
        while j < s.types.len()
            invariant
                j <= s.types.len(),
                views(s.types@) == ts,
                stats_texts(lines@) == start + type_blocks(rows@, ts.take(j as int)),
            decreases s.types.len() - j,
        {
            let t = &s.types[j];
            let ranked = entries_by_elo(rows, t);
            proof {
                lemma_elo_ranked(rows@, t@, ranked@);
            }
            let ghost before = stats_texts(lines@);
            let n = if ranked.len() < 5 {
                ranked.len()
            } else {
                5
            };
            let ghost top = top_five(ranked@);
            push_stats(&mut lines, StatsLine::TypeName(t.clone()));
            let mut k: usize = 0;
            let ghost entries = Seq::new(top.len(), |m: int| StatsText::Entry((m + 1) as nat, top[m]));
            push_stats(&mut lines, StatsLine::Spread(ranked.clone()));
            let ghost block_head = stats_texts(lines@);
            while k < n
                invariant
                    k <= n,
                    n == top.len(),
                    n <= ranked@.len(),
                    top == top_five(ranked@),
                    entries == Seq::new(top.len(), |m: int| StatsText::Entry((m + 1) as nat, top[m])),
                    stats_texts(lines@) =~= block_head + entries.take(k as int),
                decreases n - k,
            {
                assert(top[k as int] == ranked@[k as int]);
                push_stats(&mut lines, StatsLine::Entry(k + 1, ranked[k]));
                k += 1;
                assert(stats_texts(lines@) =~= block_head + entries.take(k as int));
            }
            assert(entries.take(n as int) =~= entries);
            assert(ts.take(j + 1).drop_last() =~= ts.take(j as int));
            assert(ts.take(j + 1).last() == t@);
            assert(stats_texts(lines@) =~= before + type_block(rows@, t@));
            j += 1;
        }
        assert(ts.take(s.types.len() as int) =~= ts);
    }
    assert(stats_texts(lines@) =~= stats_lines_of(rows@, views(types@)));
    lines
}

} // verus!
