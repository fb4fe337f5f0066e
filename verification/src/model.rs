//! The shared vocabulary: media rows, statuses, the Elo K-factor rule and the
//! limits that client and server agree on.

use vstd::prelude::*;
use crate::text::str_eq;

verus! {

pub const STATUS_DONE: &'static str = "done";

pub const STATUS_IN_PROGRESS: &'static str = "in progress";

pub const STATUS_ON_HOLD: &'static str = "on hold";

pub const STATUS_DROPPED: &'static str = "dropped";

pub const STATUS_BACKLOG: &'static str = "backlog";

/// The number of statuses in [`status_at`]'s list.
pub const STATUS_COUNT: usize = 5;

/// Upper bound on user-supplied type names (after trimming), in characters.
pub const MAX_TYPE_LEN: usize = 64;

/// The number of type names seeded into an empty catalogue.
pub const DEFAULT_TYPE_COUNT: usize = 8;

/// The statuses in display order: backlog, in progress, on hold, done, dropped.
pub open spec fn status_name(i: int) -> Seq<char> {
    if i == 0 {
        "backlog"@
    } else if i == 1 {
        "in progress"@
    } else if i == 2 {
        "on hold"@
    } else if i == 3 {
        "done"@
    } else {
        "dropped"@
    }
}

/// The position of `s` in the status list, or [`STATUS_COUNT`] when it is
/// none of them.
pub open spec fn status_rank_of(s: Seq<char>) -> int {
    if s == status_name(0) {
        0
    } else if s == status_name(1) {
        1
    } else if s == status_name(2) {
        2
    } else if s == status_name(3) {
        3
    } else if s == status_name(4) {
        4
    } else {
        5
    }
}

/// Only finished entries (done or dropped) take part in comparisons.
pub open spec fn rankable(s: Seq<char>) -> bool {
    s == "done"@ || s == "dropped"@
}

/// The Elo K-factor: 32 for fewer than 10 matches, 24 below 30, 16 after.
pub open spec fn k_factor(matches: u32) -> u32 {
    if matches < 10 {
        32
    } else if matches < 30 {
        24
    } else {
        16
    }
}

/// The five status names are pairwise different, and `done` and `dropped`
/// are the only rankable ones among them.
pub proof fn lemma_status_names()
    ensures
        forall|i: int, j: int| 0 <= i < j < 5 ==> status_name(i) != status_name(j),
        forall|i: int| 0 <= i < 5 ==> status_rank_of(#[trigger] status_name(i)) == i,
        forall|s: Seq<char>| #[trigger] rankable(s) <==> (status_rank_of(s) == 3 || status_rank_of(s) == 4),
        "done"@ == status_name(3),
        "dropped"@ == status_name(4),
        "backlog"@ == status_name(0),
{
    reveal_strlit("backlog");
    reveal_strlit("in progress");
    reveal_strlit("on hold");
    reveal_strlit("done");
    reveal_strlit("dropped");
    assert("backlog"@.len() == 7);
    assert("in progress"@.len() == 11);
    assert("on hold"@.len() == 7);
    assert("done"@.len() == 4);
    assert("dropped"@.len() == 7);
    assert("backlog"@[0] != "on hold"@[0]);
    assert("backlog"@[0] != "dropped"@[0]);
    assert("on hold"@[0] != "dropped"@[0]);
}

/// A media entry. `id` is the entry's UUID as a 128-bit integer, so that
/// integer order is the UUID's byte order. `elo` is the rating's IEEE-754
/// double mapped to an unsigned key whose integer order is the rating's
/// numeric order.
pub struct Row {
    pub id: u128,
    pub type_: String,
    pub title: String,
    pub elo: u64,
    pub matches: u32,
    pub status: String,
    pub date_added: String,
}

impl Row {
    /// A field-by-field copy.
    pub fn duplicate(&self) -> (out: Row)
        ensures
            out == *self,
    {
        Row {
            id: self.id,
            type_: self.type_.clone(),
            title: self.title.clone(),
            elo: self.elo,
            matches: self.matches,
            status: self.status.clone(),
            date_added: self.date_added.clone(),
        }
    }
}

/// The fields of an edit request.
pub struct EditRequest {
    pub type_: String,
    pub title: String,
    pub status: String,
}

/// A request to add a type to the catalogue.
pub struct AddTypeRequest {
    pub name: String,
}

/// A request to rename a type.
pub struct RenameTypeRequest {
    pub new_name: String,
}

/// A request to put the catalogue in a new order.
pub struct ReorderTypesRequest {
    pub names: Vec<String>,
}

/// A request to change a row's status.
pub struct SetStatusReq {
    pub status: String,
}

/// The status at position `i` of the status list.
pub fn status_at(i: usize) -> (s: &'static str)
    requires
        i < STATUS_COUNT,
    ensures
        s@ == status_name(i as int),
{
    if i == 0 {
        STATUS_BACKLOG
    } else if i == 1 {
        STATUS_IN_PROGRESS
    } else if i == 2 {
        STATUS_ON_HOLD
    } else if i == 3 {
        STATUS_DONE
    } else {
        STATUS_DROPPED
    }
}

/// The position of `status` in the status list, [`STATUS_COUNT`] if absent.
pub fn status_rank(status: &str) -> (r: usize)
    ensures
        r as int == status_rank_of(status@),
        r <= STATUS_COUNT,
{
    let mut i: usize = 0;
    while i < STATUS_COUNT
        invariant
            i <= STATUS_COUNT,
            forall|k: int| 0 <= k < i ==> status@ != status_name(k),
        decreases STATUS_COUNT - i,
    {
        if str_eq(status, status_at(i)) {
            return i;
        }
        i += 1;
    }
    STATUS_COUNT
}

/// Whether an entry with this status takes part in comparisons.
pub fn is_rankable(status: &str) -> (b: bool)
    ensures
        b == rankable(status@),
{
    str_eq(status, STATUS_DONE) || str_eq(status, STATUS_DROPPED)
}

/// The Elo K-factor for an entry with `matches` recorded matches.
pub fn get_k(matches: u32) -> (k: u32)
    ensures
        k == k_factor(matches),
{
    if matches < 10 {
        32
    } else if matches < 30 {
        24
    } else {
        16
    }
}

/// The K-factor of one match: the mean of the two entries' K-factors, which
/// is always a whole number.
pub fn match_k(matches_a: u32, matches_b: u32) -> (k: u32)
    ensures
        2 * k == k_factor(matches_a) + k_factor(matches_b),
{
    (get_k(matches_a) + get_k(matches_b)) / 2
}

/// The K-factor never grows as an entry plays more matches.
pub proof fn lemma_k_factor_monotone(m1: u32, m2: u32)
    requires
        m1 <= m2,
    ensures
        k_factor(m2) <= k_factor(m1),
{
}

} // verus!
