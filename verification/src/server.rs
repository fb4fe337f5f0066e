//! The server's rules: what requests it accepts, how each change to the
//! type catalogue turns out and how it is answered, and how it reads rows
//! from an imported CSV file.

use vstd::prelude::*;
use vstd::string::StringExecFns;
use crate::app::{any_ci, any_where, same_ci, views};
use crate::model::{MAX_TYPE_LEN, Row};
use crate::text::{
    char_count, chars_eq, digits_value, eq_ascii_ci, eq_ignore_ascii_case, lower_chars, lowercase,
    parse_u32, parses_as_u32, str_eq, trim, trim_string, unsigned_digits,
};

verus! {

/// The Elo of an entry imported without a usable rating (1500), as an Elo
/// key (see [`Row`]).
pub const BASE_ELO_KEY: u64 = 0xC097_7000_0000_0000;

/// HTTP status codes the server answers with.
pub const STATUS_BAD_REQUEST: u16 = 400;

pub const STATUS_NOT_FOUND: u16 = 404;

pub const STATUS_CONFLICT: u16 = 409;

pub const STATUS_NO_CONTENT: u16 = 204;

/// An error answer: an HTTP status code and the message sent in the body.
pub struct ApiError {
    pub status: u16,
    pub message: String,
}

impl ApiError {
    /// A 400 answer.
    pub fn bad(msg: &str) -> (e: ApiError)
        ensures
            e.status == STATUS_BAD_REQUEST,
            e.message@ == msg@,
    {
        ApiError { status: STATUS_BAD_REQUEST, message: String::from_str(msg) }
    }

    /// A 404 answer.
    pub fn not_found(msg: &str) -> (e: ApiError)
        ensures
            e.status == STATUS_NOT_FOUND,
            e.message@ == msg@,
    {
        ApiError { status: STATUS_NOT_FOUND, message: String::from_str(msg) }
    }

    /// A 409 answer.
    pub fn conflict(msg: &str) -> (e: ApiError)
        ensures
            e.status == STATUS_CONFLICT,
            e.message@ == msg@,
    {
        ApiError { status: STATUS_CONFLICT, message: String::from_str(msg) }
    }
}

/// The answer a request gets: success, or an error status and message.
pub open spec fn answers(res: Result<String, ApiError>, ok: Option<Seq<char>>, status: u16, msg: Seq<char>) -> bool {
    match ok {
        Some(v) => res matches Ok(s) && s@ == v,
        None => res matches Err(e) && e.status == status && e.message@ == msg,
    }
}

/// Accepts a title: trimmed, it must not be empty.
pub fn validate_title(raw: &str) -> (res: Result<String, ApiError>)
    ensures
        answers(
            res,
            if trim(raw@).len() == 0 {
                None
            } else {
                Some(trim(raw@))
            },
            STATUS_BAD_REQUEST,
            "title is required"@,
        ),
{
    let title = trim_string(raw);
    if title.as_str().is_empty() {
        return Err(ApiError::bad("title is required"));
    }
    Ok(title)
}

/// The server's answer to a type name (after trimming): accepted, or 400
/// when empty or longer than [`MAX_TYPE_LEN`] characters.
pub open spec fn type_name_answer(name: Seq<char>) -> (Option<Seq<char>>, Seq<char>) {
    if name.len() == 0 {
        (None, "name is required"@)
    } else if name.len() > MAX_TYPE_LEN {
        (None, "name must be at most 64 characters"@)
    } else {
        (Some(name), Seq::empty())
    }
}

/// Accepts a type name: trimmed, it must be neither empty nor longer than
/// [`MAX_TYPE_LEN`] characters.
pub fn validate_type_name(raw: &str) -> (res: Result<String, ApiError>)
    ensures
        answers(
            res,
            type_name_answer(trim(raw@)).0,
            STATUS_BAD_REQUEST,
            type_name_answer(trim(raw@)).1,
        ),
{
    let name = trim_string(raw);
    if name.as_str().is_empty() {
        return Err(ApiError::bad("name is required"));
    }
    if char_count(name.as_str()) > MAX_TYPE_LEN {
        return Err(ApiError::bad("name must be at most 64 characters"));
    }
    Ok(name)
}

/// Outcome of adding a type.
#[derive(Clone, Copy, PartialEq, Eq, Structural)]
pub enum AddTypeResult {
    Added,
    AlreadyExists,
}

/// Outcome of renaming a type.
#[derive(Clone, Copy, PartialEq, Eq, Structural)]
pub enum RenameTypeResult {
    Renamed,
    NotFound,
    Conflict,
}

/// Outcome of reordering the catalogue.
#[derive(Clone, Copy, PartialEq, Eq, Structural)]
pub enum ReorderTypesResult {
    Reordered,
    Mismatch,
}

/// Outcome of deleting a type.
#[derive(Clone, Copy, PartialEq, Eq, Structural)]
pub enum DeleteTypeResult {
    Deleted,
    NotFound,
    InUse,
}

/// How adding the type `name` to the catalogue `current` turns out: names
/// are compared up to ASCII case (the catalogue's collation), so a name
/// that matches an existing type is refused.
pub fn add_type_outcome(current: &Vec<String>, name: &str) -> (res: AddTypeResult)
    ensures
        res == AddTypeResult::AlreadyExists <==> any_where(views(current@), same_ci(name@)),
{
    if any_ci(current, name) {
        AddTypeResult::AlreadyExists
    } else {
        AddTypeResult::Added
    }
}

/// How renaming the type `old` to `new` in the catalogue `current` turns
/// out: a conflict when another type (one that does not match `old`)
/// matches `new`; else not found when no type matches `old`. A change of
/// case alone is allowed.
pub fn rename_type_outcome(current: &Vec<String>, old: &str, new: &str) -> (res: RenameTypeResult)
    ensures
        res == RenameTypeResult::Conflict <==> exists|i: int|
            0 <= i < current@.len() && eq_ascii_ci(#[trigger] current@[i]@, new@) && !eq_ascii_ci(
                current@[i]@,
                old@,
            ),
        res == RenameTypeResult::NotFound <==> res != RenameTypeResult::Conflict && !any_where(
            views(current@),
            same_ci(old@),
        ),
{
    let mut i: usize = 0;
    while i < current.len()
        invariant
            i <= current.len(),
            forall|k: int|
                0 <= k < i ==> !(eq_ascii_ci(#[trigger] current@[k]@, new@) && !eq_ascii_ci(
                    current@[k]@,
                    old@,
                )),
        decreases current.len() - i,
    {
        if eq_ignore_ascii_case(current[i].as_str(), new) && !eq_ignore_ascii_case(current[i].as_str(), old) {
            return RenameTypeResult::Conflict;
        }
        i += 1;
    }
    if any_ci(current, old) {
        RenameTypeResult::Renamed
    } else {
        RenameTypeResult::NotFound
    }
}

/// How deleting the type `name` turns out, given the types of all rows and
/// the catalogue `current`: refused while some row's type matches `name`
/// up to ASCII case; else not found when no catalogue type matches it.
pub fn delete_type_outcome(row_types: &Vec<String>, current: &Vec<String>, name: &str) -> (res: DeleteTypeResult)
    ensures
        res == DeleteTypeResult::InUse <==> any_where(views(row_types@), same_ci(name@)),
        res == DeleteTypeResult::NotFound <==> !any_where(views(row_types@), same_ci(name@)) && !any_where(
            views(current@),
            same_ci(name@),
        ),
{
    if any_ci(row_types, name) {
        DeleteTypeResult::InUse
    } else if any_ci(current, name) {
        DeleteTypeResult::Deleted
    } else {
        DeleteTypeResult::NotFound
    }
}

/// How the server answers an attempt to add a type: with the catalogue, or
/// 409 when the type exists.
pub fn add_type_answer(res: AddTypeResult) -> (out: Result<(), ApiError>)
    ensures
        res == AddTypeResult::Added <==> out is Ok,
        out matches Err(e) ==> e.status == STATUS_CONFLICT && e.message@ == "type already exists"@,
{
    match res {
        AddTypeResult::Added => Ok(()),
        AddTypeResult::AlreadyExists => Err(ApiError::conflict("type already exists")),
    }
}

/// How the server answers a rename: with the catalogue, 404 for an unknown
/// type, 409 when the new name is taken.
pub fn rename_type_answer(res: RenameTypeResult) -> (out: Result<(), ApiError>)
    ensures
        res == RenameTypeResult::Renamed <==> out is Ok,
        res == RenameTypeResult::NotFound ==> (out matches Err(e) && e.status == STATUS_NOT_FOUND
            && e.message@ == "type"@),
        res == RenameTypeResult::Conflict ==> (out matches Err(e) && e.status == STATUS_CONFLICT
            && e.message@ == "target name already exists"@),
{
    match res {
        RenameTypeResult::Renamed => Ok(()),
        RenameTypeResult::NotFound => Err(ApiError::not_found("type")),
        RenameTypeResult::Conflict => Err(ApiError::conflict("target name already exists")),
    }
}

/// How the server answers a reorder: with the catalogue, or 400 when the
/// names are not a permutation of the types.
pub fn reorder_types_answer(res: ReorderTypesResult) -> (out: Result<(), ApiError>)
    ensures
        res == ReorderTypesResult::Reordered <==> out is Ok,
        out matches Err(e) ==> e.status == STATUS_BAD_REQUEST && e.message@
            == "names must be a permutation of existing types"@,
{
    match res {
        ReorderTypesResult::Reordered => Ok(()),
        ReorderTypesResult::Mismatch => Err(
            ApiError::bad("names must be a permutation of existing types"),
        ),
    }
}

/// How the server answers a delete: 204, 404 for an unknown type, 409 when
/// rows still use it.
pub fn delete_type_answer(res: DeleteTypeResult) -> (out: Result<u16, ApiError>)
    ensures
        res == DeleteTypeResult::Deleted <==> out == Ok::<u16, ApiError>(STATUS_NO_CONTENT),
        res == DeleteTypeResult::NotFound ==> (out matches Err(e) && e.status == STATUS_NOT_FOUND
            && e.message@ == "type"@),
        res == DeleteTypeResult::InUse ==> (out matches Err(e) && e.status == STATUS_CONFLICT
            && e.message@ == "type is in use"@),
{
    match res {
        DeleteTypeResult::Deleted => Ok(STATUS_NO_CONTENT),
        DeleteTypeResult::NotFound => Err(ApiError::not_found("type")),
        DeleteTypeResult::InUse => Err(ApiError::conflict("type is in use")),
    }
}

/// How the server answers a request on one row (delete, undo): 204 when
/// the row was found, else 404.
pub fn row_change_answer(found: bool) -> (out: Result<u16, ApiError>)
    ensures
        found <==> out == Ok::<u16, ApiError>(STATUS_NO_CONTENT),
        out matches Err(e) ==> e.status == STATUS_NOT_FOUND && e.message@ == "row"@,
{
    if found {
        Ok(STATUS_NO_CONTENT)
    } else {
        Err(ApiError::not_found("row"))
    }
}

/// Why a vote between `winner` and `loser` is refused: an entry cannot be
/// voted against itself.
pub fn vote_pair_error(winner: u128, loser: u128) -> (err: Option<String>)
    ensures
        err is Some <==> winner == loser,
        err matches Some(m) ==> m@ == "winner and loser must differ"@,
{
    if winner == loser {
        Some(String::from_str("winner and loser must differ"))
    } else {
        None
    }
}

/// The lower-cased texts of a list of names.
pub open spec fn lowered(names: Seq<String>) -> Seq<Seq<char>> {
    names.map_values(|n: String| lowercase(n@))
}

/// `names` is a permutation of `current` up to case: as many names, each
/// one, lower-cased, a lower-cased current type, and no two alike.
pub open spec fn is_case_permutation(current: Seq<String>, names: Seq<String>) -> bool {
    &&& names.len() == current.len()
    &&& forall|i: int| 0 <= i < names.len() ==> lowered(current).contains(#[trigger] lowered(names)[i])
    &&& lowered(names).no_duplicates()
}

/// Checks that `names` may replace the catalogue `current` in a new order.
pub fn reorder_check(current: &Vec<String>, names: &Vec<String>) -> (res: ReorderTypesResult)
    ensures
        res == ReorderTypesResult::Reordered <==> is_case_permutation(current@, names@),
{
    if names.len() != current.len() {
        return ReorderTypesResult::Mismatch;
    }
    let mut cur: Vec<Vec<char>> = Vec::new();
    let mut i: usize = 0;
    while i < current.len()
        invariant
            i <= current.len(),
            cur@.len() == i,
            forall|k: int| 0 <= k < i ==> (#[trigger] cur@[k])@ == lowercase(current@[k]@),
        decreases current.len() - i,
    {
        cur.push(lower_chars(current[i].as_str()));
        i += 1;
    }
    let ghost lc = lowered(current@);
    let ghost ln = lowered(names@);
    assert forall|k: int| 0 <= k < cur@.len() implies (#[trigger] cur@[k])@ == lc[k] by {}
    let mut seen: Vec<Vec<char>> = Vec::new();
    let mut j: usize = 0;
    while j < names.len()
        invariant
            j <= names.len(),
            names@.len() == current@.len(),
            cur@.len() == current@.len(),
            lc == lowered(current@),
            ln == lowered(names@),
            forall|k: int| 0 <= k < cur@.len() ==> (#[trigger] cur@[k])@ == lc[k],
            seen@.len() == j,
            forall|k: int| 0 <= k < j ==> (#[trigger] seen@[k])@ == ln[k],
            forall|k: int| 0 <= k < j ==> lc.contains(#[trigger] ln[k]),
            ln.take(j as int).no_duplicates(),
        decreases names.len() - j,
    {
        let n = lower_chars(names[j].as_str());
        assert(n@ == ln[j as int]);
        let mut known = false;
        let mut k: usize = 0;
        while k < cur.len()
            invariant
                k <= cur.len(),
                forall|m: int| 0 <= m < cur@.len() ==> (#[trigger] cur@[m])@ == lc[m],
                cur@.len() == lc.len(),
                known == exists|m: int| 0 <= m < k && #[trigger] lc[m] == n@,
            decreases cur.len() - k,
        {
            if chars_eq(&cur[k], &n) {
                known = true;
            }
            k += 1;
        }
        if !known {
            proof {
                assert(!lc.contains(ln[j as int]));
            }
            return ReorderTypesResult::Mismatch;
        }
        let mut dup = false;
        let mut k2: usize = 0;
        while k2 < seen.len()
            invariant
                k2 <= seen.len(),
                forall|m: int| 0 <= m < seen@.len() ==> (#[trigger] seen@[m])@ == ln[m],
                dup == exists|m: int| 0 <= m < k2 && #[trigger] ln[m] == n@,
            decreases seen.len() - k2,
        {
            if chars_eq(&seen[k2], &n) {
                dup = true;
            }
            k2 += 1;
        }
        if dup {
            proof {
                let m = choose|m: int| 0 <= m < j && #[trigger] ln[m] == n@;
                assert(ln[m] == ln[j as int]);
            }
            return ReorderTypesResult::Mismatch;
        }
        seen.push(n);
        proof {
            assert forall|a: int, b: int| 0 <= a < ln.take(j + 1).len() && 0 <= b < ln.take(j + 1).len() && a != b
                implies #[trigger] ln.take(j + 1)[a] != #[trigger] ln.take(j + 1)[b] by {
                if a < j && b < j {
                    assert(ln.take(j as int)[a] == ln[a] && ln.take(j as int)[b] == ln[b]);
                }
            }
        }
        j += 1;
    }
    proof {
        assert(ln.take(names.len() as int) =~= ln);
    }
    ReorderTypesResult::Reordered
}

/// For a new order `names` of the catalogue `current`: for each position,
/// the first catalogue entry that lower-cases as that name does, which is
/// the stored type whose place it sets; nothing when `names` is not a
/// permutation of `current` up to case (see [`reorder_check`]).
pub fn reorder_targets(current: &Vec<String>, names: &Vec<String>) -> (res: Option<Vec<usize>>)
    ensures
        res is Some <==> is_case_permutation(current@, names@),
        res matches Some(t) ==> {
            &&& t@.len() == names@.len()
            &&& forall|i: int|
                0 <= i < t@.len() ==> #[trigger] t@[i] < current@.len() && lowered(current@)[t@[i] as int]
                    == lowered(names@)[i] && forall|m: int|
                    0 <= m < t@[i] ==> lowered(current@)[m] != lowered(names@)[i]
        },
{
    if reorder_check(current, names) == ReorderTypesResult::Mismatch {
        return None;
    }
    let ghost lc = lowered(current@);
    let ghost ln = lowered(names@);
    let mut cur: Vec<Vec<char>> = Vec::new();
    let mut i: usize = 0;
    while i < current.len()
        invariant
            i <= current.len(),
            cur@.len() == i,
            lc == lowered(current@),
            forall|k: int| 0 <= k < i ==> (#[trigger] cur@[k])@ == lc[k],
        decreases current.len() - i,
    {
        cur.push(lower_chars(current[i].as_str()));
        i += 1;
    }
    let mut targets: Vec<usize> = Vec::new();
    let mut j: usize = 0;
    while j < names.len()
        invariant
            j <= names.len(),
            is_case_permutation(current@, names@),
            lc == lowered(current@),
            ln == lowered(names@),
            cur@.len() == current@.len(),
            forall|k: int| 0 <= k < cur@.len() ==> (#[trigger] cur@[k])@ == lc[k],
            targets@.len() == j,
            forall|q: int|
                0 <= q < j ==> #[trigger] targets@[q] < current@.len() && lc[targets@[q] as int] == ln[q]
                    && forall|m: int| 0 <= m < targets@[q] ==> lc[m] != ln[q],
        decreases names.len() - j,
    {
        let n = lower_chars(names[j].as_str());
        assert(n@ == ln[j as int]);
        assert(lc.contains(ln[j as int]));
        let mut k: usize = 0;
        while k < cur.len() && !chars_eq(&cur[k], &n)
            invariant
                k <= cur.len(),
                cur@.len() == lc.len(),
                forall|m: int| 0 <= m < cur@.len() ==> (#[trigger] cur@[m])@ == lc[m],
                forall|m: int| 0 <= m < k ==> lc[m] != n@,
            decreases cur.len() - k,
        {
            k += 1;
        }
        if k == cur.len() {
            proof {
                let m = choose|m: int| 0 <= m < lc.len() && lc[m] == ln[j as int];
                assert(lc[m] != n@);
            }
        }
        targets.push(k);
        j += 1;
    }
    Some(targets)
}

/// A row of an imported CSV file: every column as read, empty when missing.
pub struct RawRow {
    pub type_: String,
    pub title: String,
    pub elo: String,
    pub matches: String,
    pub status: String,
    pub date_added: String,
}

/// The status an imported row gets: "done" when empty, "backlog" for the
/// old "pending", else the column as written.
pub open spec fn imported_status(s: Seq<char>) -> Seq<char> {
    if s.len() == 0 {
        "done"@
    } else if s == "pending"@ {
        "backlog"@
    } else {
        s
    }
}

/// The row made of a CSV line. `id` is the row's fresh id and `elo` the
/// rating column read as a number (as an Elo key), `None` when it does not
/// read as one.
pub open spec fn imported_row(r: RawRow, today: Seq<char>, id: u128, elo: Option<u64>, out: Row) -> bool {
    &&& out.id == id
    &&& out.type_@ == r.type_@
    &&& out.title@ == r.title@
    &&& out.elo == (if r.elo@.len() == 0 {
        BASE_ELO_KEY
    } else {
        match elo {
            Some(k) => k,
            None => BASE_ELO_KEY,
        }
    })
    &&& out.matches as nat == (if parses_as_u32(r.matches@) {
        digits_value(unsigned_digits(r.matches@))
    } else {
        0
    })
    &&& out.status@ == imported_status(r.status@)
    &&& out.date_added@ == (if r.date_added@.len() == 0 {
        today
    } else {
        r.date_added@
    })
}

/// Builds the row for one CSV line (see [`imported_row`]).
pub fn parse_raw(r: RawRow, today: &str, id: u128, elo: Option<u64>) -> (out: Row)
    ensures
        imported_row(r, today@, id, elo, out),
{
    let matches = match parse_u32(r.matches.as_str()) {
        Some(m) => m,
        None => 0,
    };
    let elo_key = if r.elo.as_str().is_empty() {
        BASE_ELO_KEY
    } else {
        match elo {
            Some(k) => k,
            None => BASE_ELO_KEY,
        }
    };
    let status = if r.status.as_str().is_empty() {
        String::from_str("done")
    } else if str_eq(r.status.as_str(), "pending") {
        String::from_str("backlog")
    } else {
        r.status
    };
    let date_added = if r.date_added.as_str().is_empty() {
        String::from_str(today)
    } else {
        r.date_added
    };
    Row { id, type_: r.type_, title: r.title, elo: elo_key, matches, status, date_added }
}

} // verus!
