//! Choosing the next pair of entries to compare, and the short history of
//! recent pairs that keeps the same comparison from coming back at once.
//!
//! The uniform draws are made here with `rand`; the draws weighted by
//! rating and match count (floating-point weights) are made by the caller
//! and handed in as positions. What is decided here is which entries are
//! candidates and which drawn pair is accepted.

use vstd::prelude::*;
use rand::Rng;
use std::collections::VecDeque;
use crate::model::Row;

verus! {

/// How many recent pairs are remembered.
pub const HISTORY_SIZE: usize = 30;

/// How many draws each phase of a pick may use.
pub const PAIR_ATTEMPTS: usize = 20;

/// An opponent is drawn uniformly, rather than by weight, one time in this
/// many.
pub const RANDOM_PAIR_ONE_IN: u32 = 5;

/// A position below `n`, drawn uniformly: `Rng::gen_range(0..n)` on the
/// thread's generator. The range must not be empty (`gen_range` panics on
/// an empty range); the result lies in it. Which position comes out is not
/// stated.
#[verifier::external_body]
fn random_below(n: usize) -> (r: usize)
    requires
        n > 0,
    ensures
        r < n,
{
    rand::thread_rng().gen_range(0..n)
}

/// True with chance one in `d`: `Rng::gen_ratio(1, d)` on the thread's
/// generator, which panics when `d` is 0. The outcome is not stated.
#[verifier::external_body]
fn one_chance_in(d: u32) -> (hit: bool)
    requires
        d > 0,
{
    rand::thread_rng().gen_ratio(1, d)
}

/// The order-independent key of a pair of entry ids: smaller id first.
pub open spec fn pair_key(a: u128, b: u128) -> (u128, u128) {
    if a <= b {
        (a, b)
    } else {
        (b, a)
    }
}

/// The history after remembering `p`: the oldest pair leaves when the
/// history is full.
pub open spec fn remembered(h: Seq<(u128, u128)>, p: (u128, u128)) -> Seq<(u128, u128)> {
    if h.len() == HISTORY_SIZE {
        h.drop_first().push(p)
    } else {
        h.push(p)
    }
}

/// The pairs remembered by a [`Pairer`], oldest first.
pub struct Pairer {
    recent: VecDeque<(u128, u128)>,
    history_size: usize,
}

impl Pairer {
    #[verifier::type_invariant]
    spec fn inv(self) -> bool {
        &&& self.history_size == HISTORY_SIZE
        &&& self.recent@.len() <= HISTORY_SIZE
    }

    /// The remembered pairs, oldest first.
    pub closed spec fn history(self) -> Seq<(u128, u128)> {
        self.recent@
    }

    /// An empty history.
    pub fn new() -> (p: Pairer)
        ensures
            p.history().len() == 0,
    {
        Pairer { recent: VecDeque::with_capacity(HISTORY_SIZE), history_size: HISTORY_SIZE }
    }

    /// The key of the pair `a`, `b`.
    pub fn pair_id(a: &Row, b: &Row) -> (k: (u128, u128))
        ensures
            k == pair_key(a.id, b.id),
    {
        if a.id <= b.id {
            (a.id, b.id)
        } else {
            (b.id, a.id)
        }
    }

    /// Whether the pair with key `k` is in the history.
    pub fn is_recent(&self, k: (u128, u128)) -> (res: bool)
        ensures
            res == self.history().contains(k),
    {
        let n = self.recent.len();
        let mut i: usize = 0;
        while i < n
            invariant
                n == self.recent@.len(),
                i <= n,
                forall|j: int| 0 <= j < i ==> self.recent@[j] != k,
            decreases n - i,
        {
            let e = self.recent[i];
            if e.0 == k.0 && e.1 == k.1 {
                return true;
            }
            i += 1;
        }
        false
    }

    /// Forgets the most recent pair and returns it.
    pub fn forget_last(&mut self) -> (res: Option<(u128, u128)>)
        ensures
            old(self).history().len() == 0 ==> res is None && final(self).history() == old(
                self,
            ).history(),
            old(self).history().len() > 0 ==> res == Some(old(self).history().last())
                && final(self).history() == old(self).history().drop_last(),
    {
        proof {
            use_type_invariant(&*self);
        }
        let mut recent = VecDeque::new();
        std::mem::swap(&mut recent, &mut self.recent);
        let res = recent.pop_back();
        self.recent = recent;
        res
    }

    /// Remembers the pair `a`, `b`, dropping the oldest pair when full.
    pub fn remember(&mut self, a: &Row, b: &Row)
        ensures
            final(self).history() == remembered(old(self).history(), pair_key(a.id, b.id)),
            old(self).history().len() <= HISTORY_SIZE,
            final(self).history().len() <= HISTORY_SIZE,
    {
        proof {
            use_type_invariant(&*self);
        }
        let mut recent = VecDeque::new();
        std::mem::swap(&mut recent, &mut self.recent);
        if recent.len() == self.history_size {
            recent.pop_front();
        }
        recent.push_back(Self::pair_id(a, b));
        self.recent = recent;
    }
}

impl Default for Pairer {
    fn default() -> (p: Pairer)
        ensures
            p.history().len() == 0,
    {
        Pairer::new()
    }
}

/// Forgetting the last pair right after remembering one hands that pair back
/// and, when the history was not full, leaves the history as it was.
pub proof fn lemma_forget_undoes_remember(h: Seq<(u128, u128)>, p: (u128, u128))
    requires
        h.len() <= HISTORY_SIZE,
    ensures
        remembered(h, p).len() > 0,
        remembered(h, p).last() == p,
        remembered(h, p).len() <= HISTORY_SIZE,
        h.len() < HISTORY_SIZE ==> remembered(h, p).drop_last() == h,
{
    assert(h.push(p).drop_last() =~= h);
}

/// The key of a pair does not depend on the order in which it is named.
pub proof fn lemma_pair_key_symmetric(a: u128, b: u128)
    ensures
        pair_key(a, b) == pair_key(b, a),
        pair_key(a, b).0 <= pair_key(a, b).1,
{
}

/// The entries of `eligible` other than `a` whose type is `a`'s, in order.
pub open spec fn same_type_of(rows: Seq<Row>, eligible: Seq<usize>, a: int) -> Seq<usize> {
    eligible.filter(same_type_pred(rows, a))
}

/// Entry `i` is another entry than `a` with `a`'s type.
pub open spec fn same_type_pred(rows: Seq<Row>, a: int) -> spec_fn(usize) -> bool {
    |i: usize| i as int != a && rows[i as int].type_@ == rows[a].type_@
}

/// Entry `i` has no recorded match.
pub open spec fn unmatched_pred(rows: Seq<Row>) -> spec_fn(usize) -> bool {
    |i: usize| rows[i as int].matches == 0
}

/// The entries of `cands` that have no recorded match, in order.
pub open spec fn unmatched_of(rows: Seq<Row>, cands: Seq<usize>) -> Seq<usize> {
    cands.filter(unmatched_pred(rows))
}

/// At most the first `n` elements of `s`.
pub open spec fn at_most(s: Seq<usize>, n: int) -> Seq<usize> {
    if s.len() <= n {
        s
    } else {
        s.take(n)
    }
}

/// The rows that the drawn positions name in `list`.
pub open spec fn drawn(list: Seq<usize>, draws: Seq<usize>) -> Seq<usize> {
    Seq::new(draws.len(), |k: int| list[draws[k] as int])
}

/// The first drawn row whose pair with `a` is not in `recent`.
pub open spec fn first_fresh(recent: Seq<(u128, u128)>, rows: Seq<Row>, a: int, cands: Seq<usize>) -> Option<usize>
    decreases cands.len(),
{
    if cands.len() == 0 {
        None
    } else if !recent.contains(pair_key(rows[a].id, rows[cands[0] as int].id)) {
        Some(cands[0])
    } else {
        first_fresh(recent, rows, a, cands.drop_first())
    }
}

/// The pair a pick settles on, once the first entry `a` and the draws are
/// known: nothing with fewer than two eligible entries or no other entry of
/// `a`'s type; else the first draw, among at most [`PAIR_ATTEMPTS`] draws from
/// the unmatched entries (when there are any) and then at most
/// [`PAIR_ATTEMPTS`] draws from all entries of the type, that is not a recent
/// pair.
pub open spec fn picked(
    recent: Seq<(u128, u128)>,
    rows: Seq<Row>,
    eligible: Seq<usize>,
    a: int,
    unmatched_draws: Seq<usize>,
    opponent_draws: Seq<usize>,
) -> Option<(u128, u128)> {
    let same = same_type_of(rows, eligible, a);
    let unmatched = unmatched_of(rows, same);
    let first = if unmatched.len() > 0 {
        drawn(unmatched, at_most(unmatched_draws, PAIR_ATTEMPTS as int))
    } else {
        Seq::empty()
    };
    let cands = first + drawn(same, at_most(opponent_draws, PAIR_ATTEMPTS as int));
    if eligible.len() < 2 || same.len() == 0 {
        None
    } else {
        match first_fresh(recent, rows, a, cands) {
            Some(b) => Some((rows[a].id, rows[b as int].id)),
            None => None,
        }
    }
}

/// The entries of `eligible` other than `a_idx` with `a_idx`'s type.
pub fn same_type_candidates(rows: &Vec<Row>, eligible: &Vec<usize>, a_idx: usize) -> (out: Vec<usize>)
    requires
        a_idx < rows.len(),
        forall|k: int| 0 <= k < eligible.len() ==> #[trigger] eligible@[k] < rows.len(),
    ensures
        out@ == same_type_of(rows@, eligible@, a_idx as int),
{
    let ghost pred = same_type_pred(rows@, a_idx as int);
    let mut out: Vec<usize> = Vec::new();
    let mut k: usize = 0;
    while k < eligible.len()
        invariant
            k <= eligible.len(),
            a_idx < rows.len(),
            forall|j: int| 0 <= j < eligible.len() ==> #[trigger] eligible@[j] < rows.len(),
            pred == same_type_pred(rows@, a_idx as int),
            out@ == eligible@.take(k as int).filter(pred),
        decreases eligible.len() - k,
    {
        reveal_with_fuel(Seq::<_>::filter, 1);
        let i = eligible[k];
        assert(eligible@.take(k + 1).drop_last() =~= eligible@.take(k as int));
        if i != a_idx && rows[i].type_ == rows[a_idx].type_ {
            out.push(i);
        }
        k += 1;
    }
    assert(eligible@.take(eligible.len() as int) =~= eligible@);
    out
}

/// The entries of `cands` that have no recorded match.
pub fn unmatched_candidates(rows: &Vec<Row>, cands: &Vec<usize>) -> (out: Vec<usize>)
    requires
        forall|k: int| 0 <= k < cands.len() ==> #[trigger] cands@[k] < rows.len(),
    ensures
        out@ == unmatched_of(rows@, cands@),
{
    let ghost pred = unmatched_pred(rows@);
    let mut out: Vec<usize> = Vec::new();
    let mut k: usize = 0;
    while k < cands.len()
        invariant
            k <= cands.len(),
            forall|j: int| 0 <= j < cands.len() ==> #[trigger] cands@[j] < rows.len(),
            pred == unmatched_pred(rows@),
            out@ == cands@.take(k as int).filter(pred),
        decreases cands.len() - k,
    {
        reveal_with_fuel(Seq::<_>::filter, 1);
        let i = cands[k];
        assert(cands@.take(k + 1).drop_last() =~= cands@.take(k as int));
        if rows[i].matches == 0 {
            out.push(i);
        }
        k += 1;
    }
    assert(cands@.take(cands.len() as int) =~= cands@);
    out
}

proof fn lemma_filter_in_bounds(s: Seq<usize>, pred: spec_fn(usize) -> bool, n: int)
    requires
        forall|k: int| 0 <= k < s.len() ==> #[trigger] s[k] < n,
    ensures
        forall|k: int| 0 <= k < s.filter(pred).len() ==> #[trigger] s.filter(pred)[k] < n,
    decreases s.len(),
{
    reveal(Seq::filter);
    if s.len() > 0 {
        lemma_filter_in_bounds(s.drop_last(), pred, n);
        let sub = s.drop_last().filter(pred);
        assert(s.filter(pred) == if pred(s.last()) { sub.push(s.last()) } else { sub });
    }
}

proof fn lemma_first_fresh(recent: Seq<(u128, u128)>, rows: Seq<Row>, a: int, cands: Seq<usize>)
    ensures
        first_fresh(recent, rows, a, cands) matches Some(b) ==> cands.contains(b) && !recent.contains(
            pair_key(rows[a].id, rows[b as int].id),
        ),
    decreases cands.len(),
{
    if cands.len() > 0 {
        if recent.contains(pair_key(rows[a].id, rows[cands[0] as int].id)) {
            lemma_first_fresh(recent, rows, a, cands.drop_first());
            if first_fresh(recent, rows, a, cands.drop_first()) is Some {
                let b = first_fresh(recent, rows, a, cands.drop_first())->0;
                let k = choose|k: int| 0 <= k < cands.drop_first().len() && cands.drop_first()[k] == b;
                assert(cands[k + 1] == b);
            }
        } else {
            assert(cands[0] == cands[0]);
        }
    }
}

proof fn lemma_drawn_from(list: Seq<usize>, draws: Seq<usize>, k: int)
    requires
        forall|j: int| 0 <= j < draws.len() ==> #[trigger] draws[j] < list.len(),
        0 <= k < drawn(list, at_most(draws, PAIR_ATTEMPTS as int)).len(),
    ensures
        list.contains(drawn(list, at_most(draws, PAIR_ATTEMPTS as int))[k]),
{
    let d = at_most(draws, PAIR_ATTEMPTS as int);
    assert(d[k] == draws[k]);
    assert(list[d[k] as int] == drawn(list, d)[k]);
}

/// A pair that a pick settles on is the entry `a` and another entry of
/// `eligible` with the same type, and is none of the recent pairs.
pub proof fn lemma_picked_pair(
    recent: Seq<(u128, u128)>,
    rows: Seq<Row>,
    eligible: Seq<usize>,
    a: int,
    unmatched_draws: Seq<usize>,
    opponent_draws: Seq<usize>,
)
    requires
        0 <= a < rows.len(),
        forall|k: int| 0 <= k < eligible.len() ==> #[trigger] eligible[k] < rows.len(),
        forall|k: int|
            0 <= k < unmatched_draws.len() ==> #[trigger] unmatched_draws[k] < unmatched_of(
                rows,
                same_type_of(rows, eligible, a),
            ).len(),
        forall|k: int|
            0 <= k < opponent_draws.len() ==> #[trigger] opponent_draws[k] < same_type_of(
                rows,
                eligible,
                a,
            ).len(),
    ensures
        picked(recent, rows, eligible, a, unmatched_draws, opponent_draws) matches Some(p) ==> exists|b: usize|
            {
                &&& #[trigger] eligible.contains(b)
                &&& b != a
                &&& rows[b as int].type_@ == rows[a].type_@
                &&& p == (rows[a].id, rows[b as int].id)
                &&& !recent.contains(pair_key(p.0, p.1))
            },
{
    let same = same_type_of(rows, eligible, a);
    let unmatched = unmatched_of(rows, same);
    let first = if unmatched.len() > 0 {
        drawn(unmatched, at_most(unmatched_draws, PAIR_ATTEMPTS as int))
    } else {
        Seq::empty()
    };
    let cands = first + drawn(same, at_most(opponent_draws, PAIR_ATTEMPTS as int));
    lemma_first_fresh(recent, rows, a, cands);
    if picked(recent, rows, eligible, a, unmatched_draws, opponent_draws) is Some {
        let b = first_fresh(recent, rows, a, cands)->0;
        let k = choose|k: int| 0 <= k < cands.len() && cands[k] == b;
        if k < first.len() {
            lemma_drawn_from(unmatched, unmatched_draws, k);
            assert(unmatched.contains(b));
            same.lemma_filter_contains_rev(unmatched_pred(rows), b);
        } else {
            lemma_drawn_from(same, opponent_draws, k - first.len());
        }
        assert(same.contains(b));
        let j = choose|j: int| 0 <= j < same.len() && same[j] == b;
        eligible.lemma_filter_pred(same_type_pred(rows, a), j);
        eligible.lemma_filter_contains_rev(same_type_pred(rows, a), b);
    }
}

/// The draws that [`Pairer::pick`] makes fit the lists they index, and
/// there are as many as it makes: with at least two eligible entries and
/// candidates of `a`'s type, [`PAIR_ATTEMPTS`] unmatched draws (none when
/// no candidate is unmatched) and [`PAIR_ATTEMPTS`] opponent draws; else
/// none.
pub open spec fn draws_made(rows: Seq<Row>, eligible: Seq<usize>, a: int, unmatched_draws: Seq<usize>, opponent_draws: Seq<usize>) -> bool {
    let same = same_type_of(rows, eligible, a);
    &&& draws_fit(rows, eligible, a, unmatched_draws, opponent_draws)
    &&& if eligible.len() >= 2 && same.len() > 0 {
        &&& unmatched_draws.len() == if unmatched_of(rows, same).len() > 0 {
            PAIR_ATTEMPTS as int
        } else {
            0
        }
        &&& opponent_draws.len() == PAIR_ATTEMPTS
    } else {
        unmatched_draws.len() == 0 && opponent_draws.len() == 0
    }
}

/// `a` has candidates of its type among at least two eligible entries, and
/// none of them makes a recent pair with it.
pub open spec fn all_fresh(recent: Seq<(u128, u128)>, rows: Seq<Row>, eligible: Seq<usize>, a: int) -> bool {
    let same = same_type_of(rows, eligible, a);
    &&& eligible.len() >= 2
    &&& same.len() > 0
    &&& forall|k: int| 0 <= k < same.len() ==> !recent.contains(pair_key(rows[a].id, rows[#[trigger] same[k] as int].id))
}

/// What holds of a pick with first entry `a`: it is what [`picked`] settles
/// on for draws of the numbers that [`draws_made`] fixes; it is nothing with
/// fewer than two eligible entries or no candidate of `a`'s type; it is a
/// pair when no candidate makes a recent pair with `a`; and a pair is `a`
/// with another eligible entry of its type that is not a recent pair.
pub open spec fn pick_outcome(
    recent: Seq<(u128, u128)>,
    rows: Seq<Row>,
    eligible: Seq<usize>,
    a: int,
    res: Option<(u128, u128)>,
) -> bool {
    &&& exists|ud: Seq<usize>, od: Seq<usize>|
        draws_made(rows, eligible, a, ud, od) && res == #[trigger] picked(recent, rows, eligible, a, ud, od)
    &&& eligible.len() < 2 || same_type_of(rows, eligible, a).len() == 0 ==> res is None
    &&& all_fresh(recent, rows, eligible, a) ==> res is Some
    &&& res matches Some(p) ==> exists|b: usize|
        {
            &&& #[trigger] eligible.contains(b)
            &&& b != a
            &&& rows[b as int].type_@ == rows[a].type_@
            &&& p == (rows[a].id, rows[b as int].id)
            &&& !recent.contains(pair_key(p.0, p.1))
        }
}

proof fn lemma_picked_when_fresh(
    recent: Seq<(u128, u128)>,
    rows: Seq<Row>,
    eligible: Seq<usize>,
    a: int,
    unmatched_draws: Seq<usize>,
    opponent_draws: Seq<usize>,
)
    requires
        draws_made(rows, eligible, a, unmatched_draws, opponent_draws),
        all_fresh(recent, rows, eligible, a),
    ensures
        picked(recent, rows, eligible, a, unmatched_draws, opponent_draws) is Some,
{
    let same = same_type_of(rows, eligible, a);
    let unmatched = unmatched_of(rows, same);
    let first = if unmatched.len() > 0 {
        drawn(unmatched, at_most(unmatched_draws, PAIR_ATTEMPTS as int))
    } else {
        Seq::empty()
    };
    let second = drawn(same, at_most(opponent_draws, PAIR_ATTEMPTS as int));
    let cands = first + second;
    let b = cands[0];
    if first.len() > 0 {
        lemma_drawn_from(unmatched, unmatched_draws, 0);
        assert(unmatched.contains(b));
        same.lemma_filter_contains_rev(unmatched_pred(rows), b);
    } else {
        assert(second.len() > 0);
        lemma_drawn_from(same, opponent_draws, 0);
        assert(cands[0] == second[0]);
    }
    let k = choose|k: int| 0 <= k < same.len() && same[k] == b;
    assert(!recent.contains(pair_key(rows[a].id, rows[same[k] as int].id)));
}

impl Pairer {
    /// The first acceptable draw in `cands`, as in [`first_fresh`].
    fn first_fresh_draw(&self, rows: &Vec<Row>, a_idx: usize, cands: &Vec<usize>) -> (res: Option<usize>)
        requires
            a_idx < rows.len(),
            forall|k: int| 0 <= k < cands.len() ==> #[trigger] cands@[k] < rows.len(),
        ensures
            res == first_fresh(self.history(), rows@, a_idx as int, cands@),
            res matches Some(b) ==> b < rows.len(),
    {
        let mut i: usize = 0;
        assert(cands@.skip(0) =~= cands@);
        while i < cands.len()
            invariant
                i <= cands.len(),
                a_idx < rows.len(),
                forall|k: int| 0 <= k < cands.len() ==> #[trigger] cands@[k] < rows.len(),
                first_fresh(self.history(), rows@, a_idx as int, cands@) == first_fresh(
                    self.history(),
                    rows@,
                    a_idx as int,
                    cands@.skip(i as int),
                ),
            decreases cands.len() - i,
        {
            let b = cands[i];
            assert(cands@.skip(i as int)[0] == b);
            if !self.is_recent(Self::pair_id(&rows[a_idx], &rows[b])) {
                return Some(b);
            }
            assert(cands@.skip(i as int).drop_first() =~= cands@.skip(i + 1));
            i += 1;
        }
        None
    }

    /// The pair chosen once the first entry `a_idx` and the draws are known.
    /// `unmatched_draws` are positions in the unmatched candidates and
    /// `opponent_draws` positions in all candidates of `a_idx`'s type (see
    /// [`same_type_candidates`] and [`unmatched_candidates`]); at most
    /// [`PAIR_ATTEMPTS`] of each are used. Returns the two entries' ids,
    /// `a_idx`'s first.
    pub fn pick_from(
        &self,
        rows: &Vec<Row>,
        eligible: &Vec<usize>,
        a_idx: usize,
        unmatched_draws: &Vec<usize>,
        opponent_draws: &Vec<usize>,
    ) -> (res: Option<(u128, u128)>)
        requires
            a_idx < rows.len(),
            forall|k: int| 0 <= k < eligible.len() ==> #[trigger] eligible@[k] < rows.len(),
            forall|k: int|
                0 <= k < unmatched_draws.len() ==> #[trigger] unmatched_draws@[k] < unmatched_of(
                    rows@,
                    same_type_of(rows@, eligible@, a_idx as int),
                ).len(),
            forall|k: int|
                0 <= k < opponent_draws.len() ==> #[trigger] opponent_draws@[k] < same_type_of(
                    rows@,
                    eligible@,
                    a_idx as int,
                ).len(),
        ensures
            res == picked(
                self.history(),
                rows@,
                eligible@,
                a_idx as int,
                unmatched_draws@,
                opponent_draws@,
            ),
    {
        if eligible.len() < 2 {
            return None;
        }
        let same = same_type_candidates(rows, eligible, a_idx);
        if same.len() == 0 {
            return None;
        }
        proof {
            lemma_filter_in_bounds(eligible@, same_type_pred(rows@, a_idx as int), rows@.len() as int);
        }
        let unmatched = unmatched_candidates(rows, &same);
        proof {
            lemma_filter_in_bounds(same@, unmatched_pred(rows@), rows@.len() as int);
        }
        let mut cands: Vec<usize> = Vec::new();
        if unmatched.len() > 0 {
            let mut k: usize = 0;
            while k < unmatched_draws.len() && k < PAIR_ATTEMPTS
                invariant
                    k <= unmatched_draws.len(),
                    k <= PAIR_ATTEMPTS,
                    unmatched@ == unmatched_of(rows@, same@),
                    forall|j: int| 0 <= j < unmatched_draws.len() ==> #[trigger] unmatched_draws@[j] < unmatched@.len(),
                    cands@ == drawn(unmatched@, unmatched_draws@.take(k as int)),
                decreases unmatched_draws.len() - k,
            {
                cands.push(unmatched[unmatched_draws[k]]);
                k += 1;
                assert(cands@ =~= drawn(unmatched@, unmatched_draws@.take(k as int)));
            }
            assert(unmatched_draws@.take(k as int) =~= at_most(unmatched_draws@, PAIR_ATTEMPTS as int));
        }
        let ghost first = cands@;
        let mut k: usize = 0;
        while k < opponent_draws.len() && k < PAIR_ATTEMPTS
            invariant
                k <= opponent_draws.len(),
                k <= PAIR_ATTEMPTS,
                same@ == same_type_of(rows@, eligible@, a_idx as int),
                forall|j: int| 0 <= j < opponent_draws.len() ==> #[trigger] opponent_draws@[j] < same@.len(),
                cands@ == first + drawn(same@, opponent_draws@.take(k as int)),
            decreases opponent_draws.len() - k,
        {
            cands.push(same[opponent_draws[k]]);
            k += 1;
            assert(cands@ =~= first + drawn(same@, opponent_draws@.take(k as int)));
        }
        assert(opponent_draws@.take(k as int) =~= at_most(opponent_draws@, PAIR_ATTEMPTS as int));
        proof {
            assert forall|j: int| 0 <= j < cands.len() implies #[trigger] cands@[j] < rows.len() by {
                if j < first.len() {
                    let d = unmatched_draws@[j];
                    assert(unmatched@.len() > 0);
                    assert(cands@[j] == unmatched@[d as int]);
                } else {
                    let d = opponent_draws@[j - first.len()];
                    assert(cands@[j] == same@[d as int]);
                }
            }
        }
        match self.first_fresh_draw(rows, a_idx, &cands) {
            Some(b) => Some((rows[a_idx].id, rows[b].id)),
            None => None,
        }
    }
}

/// The draws handed to [`picked`] fit the lists they index: unmatched draws
/// index the unmatched candidates, opponent draws all candidates of `a`'s
/// type.
pub open spec fn draws_fit(rows: Seq<Row>, eligible: Seq<usize>, a: int, unmatched_draws: Seq<usize>, opponent_draws: Seq<usize>) -> bool {
    &&& forall|k: int|
        0 <= k < unmatched_draws.len() ==> #[trigger] unmatched_draws[k] < unmatched_of(
            rows,
            same_type_of(rows, eligible, a),
        ).len()
    &&& forall|k: int|
        0 <= k < opponent_draws.len() ==> #[trigger] opponent_draws[k] < same_type_of(rows, eligible, a).len()
}

impl Pairer {
    /// The pick for a first entry `a_idx` that is eligible (see
    /// [`Pairer::pick`]).
    fn pick_for(&self, rows: &Vec<Row>, eligible: &Vec<usize>, a_idx: usize, weighted_draws: &Vec<usize>) -> (res: Option<(u128, u128)>)
        requires
            a_idx < rows.len(),
            eligible@.contains(a_idx),
            forall|k: int| 0 <= k < eligible.len() ==> #[trigger] eligible@[k] < rows.len(),
            forall|k: int|
                0 <= k < weighted_draws.len() ==> #[trigger] weighted_draws@[k] < same_type_of(
                    rows@,
                    eligible@,
                    a_idx as int,
                ).len(),
            same_type_of(rows@, eligible@, a_idx as int).len() > 0 ==> weighted_draws.len() >= PAIR_ATTEMPTS,
        ensures
            pick_outcome(self.history(), rows@, eligible@, a_idx as int, res),
    {
        let same = same_type_candidates(rows, eligible, a_idx);
        proof {
            lemma_filter_in_bounds(eligible@, same_type_pred(rows@, a_idx as int), rows@.len() as int);
        }
        let unmatched = unmatched_candidates(rows, &same);
        let mut unmatched_draws: Vec<usize> = Vec::new();
        let mut opponent_draws: Vec<usize> = Vec::new();
        if eligible.len() >= 2 && same.len() > 0 {
            if unmatched.len() > 0 {
                let mut k: usize = 0;
                while k < PAIR_ATTEMPTS
                    invariant
                        k <= PAIR_ATTEMPTS,
                        unmatched_draws.len() == k,
                        unmatched.len() > 0,
                        forall|j: int| 0 <= j < unmatched_draws.len() ==> #[trigger] unmatched_draws@[j] < unmatched.len(),
                    decreases PAIR_ATTEMPTS - k,
                {
                    unmatched_draws.push(random_below(unmatched.len()));
                    k += 1;
                }
            }
            let mut k: usize = 0;
            while k < PAIR_ATTEMPTS
                invariant
                    k <= PAIR_ATTEMPTS,
                    opponent_draws.len() == k,
                    same.len() > 0,
                    weighted_draws.len() >= PAIR_ATTEMPTS,
                    forall|j: int| 0 <= j < weighted_draws.len() ==> #[trigger] weighted_draws@[j] < same.len(),
                    forall|j: int| 0 <= j < opponent_draws.len() ==> #[trigger] opponent_draws@[j] < same.len(),
                decreases PAIR_ATTEMPTS - k,
            {
                if one_chance_in(RANDOM_PAIR_ONE_IN) {
                    opponent_draws.push(random_below(same.len()));
                } else {
                    opponent_draws.push(weighted_draws[k]);
                }
                k += 1;
            }
        }
        let res = self.pick_from(rows, eligible, a_idx, &unmatched_draws, &opponent_draws);
        assert(draws_made(rows@, eligible@, a_idx as int, unmatched_draws@, opponent_draws@));
        proof {
            lemma_picked_pair(self.history(), rows@, eligible@, a_idx as int, unmatched_draws@, opponent_draws@);
            if all_fresh(self.history(), rows@, eligible@, a_idx as int) {
                lemma_picked_when_fresh(self.history(), rows@, eligible@, a_idx as int, unmatched_draws@, opponent_draws@);
            }
        }
        res
    }

    /// Picks the pair to compare next. `first` is the first entry, drawn
    /// by the caller by weight among `eligible` (none when nothing is
    /// eligible). When there are at least two eligible entries and the first
    /// has candidates of its type, [`PAIR_ATTEMPTS`] opponents are drawn
    /// uniformly among the unmatched candidates (when there are any), then
    /// [`PAIR_ATTEMPTS`] more among all candidates: each of these is drawn
    /// uniformly one time in [`RANDOM_PAIR_ONE_IN`] and otherwise taken
    /// from `weighted_draws`, the caller's draws by weight among the
    /// candidates of the first entry's type (see [`same_type_candidates`]).
    /// The result is what [`picked`] settles on for draws of those numbers
    /// (see [`pick_outcome`]): nothing with fewer than two eligible entries;
    /// else the first entry with another eligible entry of its type that
    /// is not a recent pair, and surely one when no candidate makes a recent
    /// pair with it.
    pub fn pick(&self, rows: &Vec<Row>, eligible: &Vec<usize>, first: Option<usize>, weighted_draws: &Vec<usize>) -> (res: Option<(u128, u128)>)
        requires
            eligible.len() > 0 ==> first is Some,
            forall|k: int| 0 <= k < eligible.len() ==> #[trigger] eligible@[k] < rows.len(),
            first matches Some(a) ==> {
                &&& a < rows.len()
                &&& eligible@.contains(a)
                &&& forall|k: int|
                    0 <= k < weighted_draws.len() ==> #[trigger] weighted_draws@[k] < same_type_of(
                        rows@,
                        eligible@,
                        a as int,
                    ).len()
                &&& same_type_of(rows@, eligible@, a as int).len() > 0 ==> weighted_draws.len() >= PAIR_ATTEMPTS
            },
        ensures
            eligible.len() < 2 ==> res is None,
            match first {
                None => res is None,
                Some(a) => pick_outcome(self.history(), rows@, eligible@, a as int, res),
            },
    {
        match first {
            None => None,
            Some(a) => self.pick_for(rows, eligible, a, weighted_draws),
        }
    }
}

} // verus!
