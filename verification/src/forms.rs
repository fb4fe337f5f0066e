//! The add and edit forms and the type manager's state, with the keys that
//! drive them.

use vstd::prelude::*;
use crate::model::{Row, STATUS_COUNT, lemma_status_names, status_rank, status_rank_of};

verus! {

/// A key press, as the terminal reports it.
#[derive(Clone, Copy, PartialEq, Eq, Structural)]
pub enum KeyCode {
    Char(char),
    Enter,
    Esc,
    Tab,
    BackTab,
    Backspace,
    Up,
    Down,
    Left,
    Right,
    Home,
    End,
    PageUp,
    PageDown,
    Other,
}

/// A key press with the one modifier the screens look at.
#[derive(Clone, Copy, PartialEq, Eq, Structural)]
pub struct KeyEvent {
    pub code: KeyCode,
    pub shift: bool,
}

/// Removes the last character of `s` with `String::pop`. Trusted to remove
/// and return the last character, and to return `None` and leave an empty
/// string as it is.
#[verifier::external_body]
pub(crate) fn pop_char(s: &mut String) -> (res: Option<char>)
    ensures
        old(s)@.len() == 0 ==> res is None && final(s)@ == old(s)@,
        old(s)@.len() > 0 ==> res == Some(old(s)@.last()) && final(s)@ == old(s)@.drop_last(),
{
    s.pop()
}

/// The text after a key press in a text field: Backspace removes the last
/// character, a character key appends it, other keys leave it.
pub open spec fn edited_text(s: Seq<char>, code: KeyCode) -> Seq<char> {
    match code {
        KeyCode::Backspace => if s.len() > 0 {
            s.drop_last()
        } else {
            s
        },
        KeyCode::Char(c) => s.push(c),
        _ => s,
    }
}

/// Applies a key press to a text field.
pub fn handle_text_input(buf: &mut String, key: KeyEvent)
    ensures
        final(buf)@ == edited_text(old(buf)@, key.code),
{
    match key.code {
        KeyCode::Backspace => {
            pop_char(buf);
        },
        KeyCode::Char(c) => {
            crate::text::push_char(buf, c);
        },
        _ => {},
    }
}

/// Typing a character and then Backspace leaves a text field as it was.
pub proof fn lemma_type_then_erase(s: Seq<char>, c: char)
    ensures
        edited_text(edited_text(s, KeyCode::Char(c)), KeyCode::Backspace) == s,
{
    assert(s.push(c).drop_last() =~= s);
}

/// The position after stepping `idx` one place back or forward in a ring of
/// `len` places.
pub open spec fn ring_step(idx: int, len: int, forward: bool) -> int {
    if forward {
        (idx + 1) % len
    } else {
        (idx + len - 1) % len
    }
}

/// Steps `idx` one place in a ring of `len` places.
pub fn ring_move(idx: usize, len: usize, forward: bool) -> (r: usize)
    requires
        len > 0,
    ensures
        r as int == ring_step(idx as int, len as int, forward),
        r < len,
{
    let i = idx % len;
    proof {
        let (n, x) = (len as int, i as int);
        vstd::arithmetic::div_mod::lemma_add_mod_noop_right(1, idx as int, n);
        vstd::arithmetic::div_mod::lemma_add_mod_noop_right(n - 1, idx as int, n);
        assert(idx as int + 1 == 1 + idx as int);
        assert(idx as int + n - 1 == (n - 1) + idx as int);
        if x + 1 < n {
            vstd::arithmetic::div_mod::lemma_small_mod((x + 1) as nat, n as nat);
        } else {
            vstd::arithmetic::div_mod::lemma_mod_self_0(n);
        }
        if x == 0 {
            vstd::arithmetic::div_mod::lemma_small_mod((n - 1) as nat, n as nat);
        } else {
            vstd::arithmetic::div_mod::lemma_mod_add_multiples_vanish(x - 1, n);
            vstd::arithmetic::div_mod::lemma_small_mod((x - 1) as nat, n as nat);
            assert(n - 1 + x == n + (x - 1));
        }
    }
    if forward {
        if i + 1 == len {
            0
        } else {
            i + 1
        }
    } else {
        if i == 0 {
            len - 1
        } else {
            i - 1
        }
    }
}

/// Stepping back undoes stepping forward (and the other way round) for a
/// position inside the ring.
pub proof fn lemma_ring_step_inverse(idx: int, len: int)
    requires
        0 <= idx < len,
    ensures
        ring_step(ring_step(idx, len, true), len, false) == idx,
        ring_step(ring_step(idx, len, false), len, true) == idx,
{
    if idx + 1 < len {
        vstd::arithmetic::div_mod::lemma_small_mod((idx + 1) as nat, len as nat);
        vstd::arithmetic::div_mod::lemma_mod_add_multiples_vanish(idx, len);
        vstd::arithmetic::div_mod::lemma_small_mod(idx as nat, len as nat);
        assert(idx + 1 + len - 1 == len + idx);
    } else {
        vstd::arithmetic::div_mod::lemma_mod_self_0(len);
        vstd::arithmetic::div_mod::lemma_small_mod((len - 1) as nat, len as nat);
    }
    if idx == 0 {
        vstd::arithmetic::div_mod::lemma_small_mod((len - 1) as nat, len as nat);
        vstd::arithmetic::div_mod::lemma_mod_self_0(len);
    } else {
        vstd::arithmetic::div_mod::lemma_mod_add_multiples_vanish(idx - 1, len);
        vstd::arithmetic::div_mod::lemma_small_mod((idx - 1) as nat, len as nat);
        vstd::arithmetic::div_mod::lemma_small_mod(idx as nat, len as nat);
        assert(idx + len - 1 == len + (idx - 1));
    }
}

/// The fields of the add form.
#[derive(Clone, Copy, PartialEq, Eq, Structural)]
pub enum AddField {
    Type,
    Title,
    Rating,
    Status,
}

/// The field after `f` in the add form (Tab).
pub open spec fn add_field_after(f: AddField) -> AddField {
    match f {
        AddField::Type => AddField::Title,
        AddField::Title => AddField::Rating,
        AddField::Rating => AddField::Status,
        AddField::Status => AddField::Type,
    }
}

/// The field before `f` in the add form (Shift-Tab).
pub open spec fn add_field_before(f: AddField) -> AddField {
    match f {
        AddField::Type => AddField::Status,
        AddField::Title => AddField::Type,
        AddField::Rating => AddField::Title,
        AddField::Status => AddField::Rating,
    }
}

/// Tab and Shift-Tab undo each other in the add form, and four Tabs come
/// back to the starting field.
pub proof fn lemma_add_field_cycle(f: AddField)
    ensures
        add_field_before(add_field_after(f)) == f,
        add_field_after(add_field_before(f)) == f,
        add_field_after(add_field_after(add_field_after(add_field_after(f)))) == f,
{
}

/// Left (or `h`) steps a selector one place back in its ring and Right (or
/// `l`) one place forward, so that each undoes the other.
pub open spec fn is_back_key(code: KeyCode) -> bool {
    code == KeyCode::Left || code == KeyCode::Char('h')
}

/// Right or `l`.
pub open spec fn is_forward_key(code: KeyCode) -> bool {
    code == KeyCode::Right || code == KeyCode::Char('l')
}

/// On the add form's status field, Left (or `h`) moves to the status one
/// place back (from the first to the last of the five) and Right (or `l`)
/// to the one after (from the last to the first); so Left then Right, or
/// Right then Left, gives the form back.
pub proof fn lemma_add_status_keys(m: AddModal, n: AddModal, p: AddModal, k1: KeyEvent, k2: KeyEvent, len: usize, o1: FormOutcome, o2: FormOutcome)
    requires
        m.focus == AddField::Status,
        m.status_idx < STATUS_COUNT,
        len > 0,
        (is_back_key(k1.code) && is_forward_key(k2.code)) || (is_forward_key(k1.code) && is_back_key(k2.code)),
        add_key_done(m, n, k1, len, o1),
        add_key_done(n, p, k2, len, o2),
    ensures
        n.status_idx == if is_back_key(k1.code) {
            if m.status_idx == 0 { 4 } else { m.status_idx - 1 }
        } else {
            if m.status_idx == 4 { 0 } else { m.status_idx + 1 }
        },
        n.focus == AddField::Status,
        p == m,
        o1 == FormOutcome::Stay && o2 == FormOutcome::Stay,
{
    lemma_ring_step_inverse(m.status_idx as int, STATUS_COUNT as int);
    lemma_ring_step_values(m.status_idx as int, STATUS_COUNT as int);
}

/// On the add form's type field, Left (or `h`) moves to the type one place
/// back (from the first to the last) and Right (or `l`) to the one after;
/// so Left then Right, or Right then Left, gives the form back.
pub proof fn lemma_add_type_keys(m: AddModal, n: AddModal, p: AddModal, k1: KeyEvent, k2: KeyEvent, len: usize, o1: FormOutcome, o2: FormOutcome)
    requires
        m.focus == AddField::Type,
        m.type_idx < len,
        (is_back_key(k1.code) && is_forward_key(k2.code)) || (is_forward_key(k1.code) && is_back_key(k2.code)),
        add_key_done(m, n, k1, len, o1),
        add_key_done(n, p, k2, len, o2),
    ensures
        n.type_idx == if is_back_key(k1.code) {
            if m.type_idx == 0 { len - 1 } else { m.type_idx - 1 }
        } else {
            if m.type_idx == len - 1 { 0 } else { m.type_idx + 1 }
        },
        p == m,
{
    lemma_ring_step_inverse(m.type_idx as int, len as int);
    lemma_ring_step_values(m.type_idx as int, len as int);
}

/// On the edit form's status and type fields, Left (or `h`) moves one place
/// back in the ring (from the first to the last) and Right (or `l`) one
/// place forward (from the last to the first); so Left then Right, or Right
/// then Left, gives the form back.
pub proof fn lemma_edit_select_keys(m: EditModal, n: EditModal, p: EditModal, k1: KeyEvent, k2: KeyEvent, len: usize, o1: FormOutcome, o2: FormOutcome)
    requires
        m.focus == EditField::Status || m.focus == EditField::Type,
        m.status_idx < STATUS_COUNT,
        m.type_idx < len,
        (is_back_key(k1.code) && is_forward_key(k2.code)) || (is_forward_key(k1.code) && is_back_key(k2.code)),
        edit_key_done(m, n, k1, len, o1),
        edit_key_done(n, p, k2, len, o2),
    ensures
        m.focus == EditField::Status ==> n.status_idx == if is_back_key(k1.code) {
            if m.status_idx == 0 { 4 } else { m.status_idx - 1 }
        } else {
            if m.status_idx == 4 { 0 } else { m.status_idx + 1 }
        },
        m.focus == EditField::Type ==> n.type_idx == if is_back_key(k1.code) {
            if m.type_idx == 0 { len - 1 } else { m.type_idx - 1 }
        } else {
            if m.type_idx == len - 1 { 0 } else { m.type_idx + 1 }
        },
        p == m,
{
    lemma_ring_step_inverse(m.status_idx as int, STATUS_COUNT as int);
    lemma_ring_step_values(m.status_idx as int, STATUS_COUNT as int);
    lemma_ring_step_inverse(m.type_idx as int, len as int);
    lemma_ring_step_values(m.type_idx as int, len as int);
}

/// `ring_step` in plain terms, for a position inside the ring.
proof fn lemma_ring_step_values(idx: int, len: int)
    requires
        0 <= idx < len,
    ensures
        ring_step(idx, len, true) == if idx == len - 1 { 0 } else { idx + 1 },
        ring_step(idx, len, false) == if idx == 0 { len - 1 } else { idx - 1 },
{
    if idx == len - 1 {
        vstd::arithmetic::div_mod::lemma_mod_self_0(len);
    } else {
        vstd::arithmetic::div_mod::lemma_small_mod((idx + 1) as nat, len as nat);
    }
    if idx == 0 {
        vstd::arithmetic::div_mod::lemma_small_mod((len - 1) as nat, len as nat);
    } else {
        vstd::arithmetic::div_mod::lemma_mod_add_multiples_vanish(idx - 1, len);
        vstd::arithmetic::div_mod::lemma_small_mod((idx - 1) as nat, len as nat);
        assert(idx + len - 1 == len + (idx - 1));
    }
}

/// What a key press asks of the form's owner.
#[derive(Clone, Copy, PartialEq, Eq, Structural)]
pub enum FormOutcome {
    /// The form stays open.
    Stay,
    /// The form is dismissed without saving.
    Close,
    /// The form is to be saved.
    Submit,
}

/// The add form: type and status as positions in their lists.
pub struct AddModal {
    pub type_idx: usize,
    pub title: String,
    pub rating: String,
    pub status_idx: usize,
    pub focus: AddField,
}

/// The form after a key press, and what the key asks of its owner (see
/// [`AddModal::handle_key`]).
pub open spec fn add_key_done(m: AddModal, n: AddModal, key: KeyEvent, types_len: usize, out: FormOutcome) -> bool {
    match key.code {
        KeyCode::Esc => out == FormOutcome::Close && n == m,
        KeyCode::Enter => if m.focus == AddField::Status {
            out == FormOutcome::Submit && n == m
        } else {
            out == FormOutcome::Stay && n == AddModal { focus: add_field_after(m.focus), ..m }
        },
        KeyCode::Tab => out == FormOutcome::Stay && n == AddModal {
            focus: add_field_after(m.focus),
            ..m
        },
        KeyCode::BackTab => out == FormOutcome::Stay && n == AddModal {
            focus: add_field_before(m.focus),
            ..m
        },
        _ => out == FormOutcome::Stay && match m.focus {
            AddField::Type => match key.code {
                KeyCode::Left | KeyCode::Char('h') => n == AddModal {
                    type_idx: ring_step(m.type_idx as int, types_len as int, false) as usize,
                    ..m
                },
                KeyCode::Right | KeyCode::Char('l') => n == AddModal {
                    type_idx: ring_step(m.type_idx as int, types_len as int, true) as usize,
                    ..m
                },
                _ => n == m,
            },
            AddField::Status => match key.code {
                KeyCode::Left | KeyCode::Char('h') => n == AddModal {
                    status_idx: ring_step(m.status_idx as int, STATUS_COUNT as int, false) as usize,
                    ..m
                },
                KeyCode::Right | KeyCode::Char('l') => n == AddModal {
                    status_idx: ring_step(m.status_idx as int, STATUS_COUNT as int, true) as usize,
                    ..m
                },
                _ => n == m,
            },
            AddField::Title => n.title@ == edited_text(m.title@, key.code) && n
                == AddModal { title: n.title, ..m },
            AddField::Rating => n.rating@ == edited_text(m.rating@, key.code) && n
                == AddModal { rating: n.rating, ..m },
        },
    }
}

impl AddModal {
    /// An empty form on the type field, with status "backlog".
    pub fn new() -> (m: AddModal)
        ensures
            is_blank_add_form(m),
            m.status_idx as int == status_rank_of("backlog"@),
    {
        proof {
            lemma_status_names();
        }
        AddModal {
            type_idx: 0,
            title: String::new(),
            rating: String::new(),
            status_idx: 0,
            focus: AddField::Type,
        }
    }

    /// Applies a key press; `types_len` is the number of types, at least 1.
    /// Esc closes; Enter moves to the next field, and on the status field
    /// submits; Tab and Shift-Tab move between fields; Left/`h` and
    /// Right/`l` step the type or status; other keys edit the title or
    /// rating when one of them has the focus.
    pub fn handle_key(&mut self, key: KeyEvent, types_len: usize) -> (out: FormOutcome)
        requires
            types_len > 0,
        ensures
            add_key_done(*old(self), *final(self), key, types_len, out),
            old(self).status_idx < STATUS_COUNT ==> final(self).status_idx < STATUS_COUNT,
    {
        match key.code {
            KeyCode::Esc => {
                return FormOutcome::Close;
            },
            KeyCode::Enter => {
                match self.focus {
                    AddField::Type => {
                        self.focus = AddField::Title;
                    },
                    AddField::Title => {
                        self.focus = AddField::Rating;
                    },
                    AddField::Rating => {
                        self.focus = AddField::Status;
                    },
                    AddField::Status => {
                        return FormOutcome::Submit;
                    },
                }
                return FormOutcome::Stay;
            },
            KeyCode::Tab => {
                self.focus =
                match self.focus {
                    AddField::Type => AddField::Title,
                    AddField::Title => AddField::Rating,
                    AddField::Rating => AddField::Status,
                    AddField::Status => AddField::Type,
                };
                return FormOutcome::Stay;
            },
            KeyCode::BackTab => {
                self.focus =
                match self.focus {
                    AddField::Type => AddField::Status,
                    AddField::Title => AddField::Type,
                    AddField::Rating => AddField::Title,
                    AddField::Status => AddField::Rating,
                };
                return FormOutcome::Stay;
            },
            _ => {},
        }
        match self.focus {
            AddField::Type => match key.code {
                KeyCode::Left | KeyCode::Char('h') => {
                    self.type_idx = ring_move(self.type_idx, types_len, false);
                },
                KeyCode::Right | KeyCode::Char('l') => {
                    self.type_idx = ring_move(self.type_idx, types_len, true);
                },
                _ => {},
            },
            AddField::Status => match key.code {
                KeyCode::Left | KeyCode::Char('h') => {
                    self.status_idx = ring_move(self.status_idx, STATUS_COUNT, false);
                },
                KeyCode::Right | KeyCode::Char('l') => {
                    self.status_idx = ring_move(self.status_idx, STATUS_COUNT, true);
                },
                _ => {},
            },
            AddField::Title => handle_text_input(&mut self.title, key),
            AddField::Rating => handle_text_input(&mut self.rating, key),
        }
        FormOutcome::Stay
    }
}

impl Default for AddModal {
    /// The empty form of [`AddModal::new`].
    fn default() -> (m: AddModal)
        ensures
            is_blank_add_form(m),
    {
        AddModal::new()
    }
}

/// The fields of the edit form.
#[derive(Clone, Copy, PartialEq, Eq, Structural)]
pub enum EditField {
    Type,
    Title,
    Status,
}

/// The field after `f` in the edit form (Tab).
pub open spec fn edit_field_after(f: EditField) -> EditField {
    match f {
        EditField::Type => EditField::Title,
        EditField::Title => EditField::Status,
        EditField::Status => EditField::Type,
    }
}

/// The field before `f` in the edit form (Shift-Tab).
pub open spec fn edit_field_before(f: EditField) -> EditField {
    match f {
        EditField::Type => EditField::Status,
        EditField::Title => EditField::Type,
        EditField::Status => EditField::Title,
    }
}

/// Tab and Shift-Tab undo each other in the edit form, and three Tabs come
/// back to the starting field.
pub proof fn lemma_edit_field_cycle(f: EditField)
    ensures
        edit_field_before(edit_field_after(f)) == f,
        edit_field_after(edit_field_before(f)) == f,
        edit_field_after(edit_field_after(edit_field_after(f))) == f,
{
}

/// The first position of a type named `t` in `types`, or none.
pub open spec fn position_of(types: Seq<String>, t: Seq<char>) -> Option<int>
    decreases types.len(),
{
    if types.len() == 0 {
        None
    } else if types.last()@ == t && position_of(types.drop_last(), t) is None {
        Some(types.len() - 1)
    } else {
        position_of(types.drop_last(), t)
    }
}

/// The first position of `t` in `types`.
pub fn find_type(types: &Vec<String>, t: &String) -> (res: Option<usize>)
    ensures
        res matches Some(i) ==> position_of(types@, t@) == Some(i as int),
        res is None ==> position_of(types@, t@) is None,
        res matches Some(i) ==> i < types.len() && types@[i as int]@ == t@,
{
    let mut i: usize = 0;
    while i < types.len()
        invariant
            i <= types.len(),
            position_of(types@.take(i as int), t@) is None,
        decreases types.len() - i,
    {
        assert(types@.take(i + 1).drop_last() =~= types@.take(i as int));
        if types[i] == *t {
            proof {
                lemma_position_prefix(types@, t@, i as int + 1);
            }
            return Some(i);
        }
        i += 1;
    }
    assert(types@.take(types.len() as int) =~= types@);
    None
}

proof fn lemma_position_prefix(types: Seq<String>, t: Seq<char>, k: int)
    requires
        0 <= k <= types.len(),
        position_of(types.take(k), t) is Some,
    ensures
        position_of(types, t) == position_of(types.take(k), t),
    decreases types.len(),
{
    if k < types.len() {
        assert(types.drop_last().take(k) =~= types.take(k));
        lemma_position_prefix(types.drop_last(), t, k);
    } else {
        assert(types.take(k) =~= types);
    }
}

/// `m` is the edit form that [`EditModal::new`] opens for `r`.
pub open spec fn is_edit_form_for(m: EditModal, r: Row, types: Seq<String>) -> bool {
    &&& m.row_id == r.id
    &&& m.type_idx as int == match position_of(types, r.type_@) {
        Some(i) => i,
        None => 0,
    }
    &&& m.title@ == r.title@
    &&& m.status_idx as int == if status_rank_of(r.status@) < STATUS_COUNT {
        status_rank_of(r.status@)
    } else {
        0
    }
    &&& m.focus == EditField::Title
    &&& m.display_elo == r.elo
    &&& m.display_matches == r.matches
}

/// `m` is the empty add form that [`AddModal::new`] opens.
pub open spec fn is_blank_add_form(m: AddModal) -> bool {
    &&& m.type_idx == 0
    &&& m.title@.len() == 0
    &&& m.rating@.len() == 0
    &&& m.status_idx == 0
    &&& m.focus == AddField::Type
}

/// The edit form for one row.
pub struct EditModal {
    pub row_id: u128,
    pub type_idx: usize,
    pub title: String,
    pub status_idx: usize,
    pub focus: EditField,
    pub display_elo: u64,
    pub display_matches: u32,
}

/// The form after a key press, and what the key asks of its owner (see
/// [`EditModal::handle_key`]).
pub open spec fn edit_key_done(m: EditModal, n: EditModal, key: KeyEvent, types_len: usize, out: FormOutcome) -> bool {
    match key.code {
        KeyCode::Esc => out == FormOutcome::Close && n == m,
        KeyCode::Enter => if m.focus == EditField::Status {
            out == FormOutcome::Submit && n == m
        } else {
            out == FormOutcome::Stay && n == EditModal { focus: edit_field_after(m.focus), ..m }
        },
        KeyCode::Tab => out == FormOutcome::Stay && n == EditModal {
            focus: edit_field_after(m.focus),
            ..m
        },
        KeyCode::BackTab => out == FormOutcome::Stay && n == EditModal {
            focus: edit_field_before(m.focus),
            ..m
        },
        _ => out == FormOutcome::Stay && match m.focus {
            EditField::Type => match key.code {
                KeyCode::Left | KeyCode::Char('h') => n == EditModal {
                    type_idx: ring_step(m.type_idx as int, types_len as int, false) as usize,
                    ..m
                },
                KeyCode::Right | KeyCode::Char('l') => n == EditModal {
                    type_idx: ring_step(m.type_idx as int, types_len as int, true) as usize,
                    ..m
                },
                _ => n == m,
            },
            EditField::Status => match key.code {
                KeyCode::Left | KeyCode::Char('h') => n == EditModal {
                    status_idx: ring_step(m.status_idx as int, STATUS_COUNT as int, false) as usize,
                    ..m
                },
                KeyCode::Right | KeyCode::Char('l') => n == EditModal {
                    status_idx: ring_step(m.status_idx as int, STATUS_COUNT as int, true) as usize,
                    ..m
                },
                _ => n == m,
            },
            EditField::Title => n.title@ == edited_text(m.title@, key.code) && n
                == EditModal { title: n.title, ..m },
        },
    }
}

impl EditModal {
    /// The form for `r`, focused on the title, with the row's type and status
    /// selected (the first of each list when absent from it).
    pub fn new(r: &Row, types: &Vec<String>) -> (m: EditModal)
        ensures
            is_edit_form_for(m, *r, types@),
            m.status_idx < STATUS_COUNT,
    {
        let type_idx = match find_type(types, &r.type_) {
            Some(i) => i,
            None => 0,
        };
        let rank = status_rank(r.status.as_str());
        let status_idx = if rank < STATUS_COUNT {
            rank
        } else {
            0
        };
        EditModal {
            row_id: r.id,
            type_idx,
            title: r.title.clone(),
            status_idx,
            focus: EditField::Title,
            display_elo: r.elo,
            display_matches: r.matches,
        }
    }

    /// Applies a key press; `types_len` is the number of types, at least 1.
    /// As for the add form, without a rating field.
    pub fn handle_key(&mut self, key: KeyEvent, types_len: usize) -> (out: FormOutcome)
        requires
            types_len > 0,
        ensures
            edit_key_done(*old(self), *final(self), key, types_len, out),
            old(self).status_idx < STATUS_COUNT ==> final(self).status_idx < STATUS_COUNT,
    {
        match key.code {
            KeyCode::Esc => {
                return FormOutcome::Close;
            },
            KeyCode::Enter => {
                match self.focus {
                    EditField::Type => {
                        self.focus = EditField::Title;
                    },
                    EditField::Title => {
                        self.focus = EditField::Status;
                    },
                    EditField::Status => {
                        return FormOutcome::Submit;
                    },
                }
                return FormOutcome::Stay;
            },
            KeyCode::Tab => {
                self.focus =
                match self.focus {
                    EditField::Type => EditField::Title,
                    EditField::Title => EditField::Status,
                    EditField::Status => EditField::Type,
                };
                return FormOutcome::Stay;
            },
            KeyCode::BackTab => {
                self.focus =
                match self.focus {
                    EditField::Type => EditField::Status,
                    EditField::Title => EditField::Type,
                    EditField::Status => EditField::Title,
                };
                return FormOutcome::Stay;
            },
            _ => {},
        }
        match self.focus {
            EditField::Type => match key.code {
                KeyCode::Left | KeyCode::Char('h') => {
                    self.type_idx = ring_move(self.type_idx, types_len, false);
                },
                KeyCode::Right | KeyCode::Char('l') => {
                    self.type_idx = ring_move(self.type_idx, types_len, true);
                },
                _ => {},
            },
            EditField::Status => match key.code {
                KeyCode::Left | KeyCode::Char('h') => {
                    self.status_idx = ring_move(self.status_idx, STATUS_COUNT, false);
                },
                KeyCode::Right | KeyCode::Char('l') => {
                    self.status_idx = ring_move(self.status_idx, STATUS_COUNT, true);
                },
                _ => {},
            },
            EditField::Title => handle_text_input(&mut self.title, key),
        }
        FormOutcome::Stay
    }
}

/// What the type manager is doing.
#[derive(Clone, Copy, PartialEq, Eq, Structural)]
pub enum TypeManagerMode {
    Browse,
    AddInput,
    RenameInput,
}

/// The type manager: a cursor into the type list, an input buffer and the
/// last error to show.
pub struct TypeManagerModal {
    pub cursor: usize,
    pub mode: TypeManagerMode,
    pub buffer: String,
    pub error: Option<String>,
}

impl Default for TypeManagerModal {
    fn default() -> (m: TypeManagerModal)
        ensures
            m.cursor == 0,
            m.mode == TypeManagerMode::Browse,
            m.buffer@.len() == 0,
            m.error is None,
    {
        TypeManagerModal {
            cursor: 0,
            mode: TypeManagerMode::Browse,
            buffer: String::new(),
            error: None,
        }
    }
}

} // verus!
