//! What each key does on each screen and dialog. Keys whose work needs the
//! server or the outside world return a [`Command`] for the caller to carry
//! out; the others change the state here.

use vstd::prelude::*;
use crate::app::{
    clamp_int, swapped,
    App, Modal, Screen, begin_add_done, begin_delete_done, begin_edit_done, begin_type_manager_done,
    close_search_done, confirm_no_done, cursor_down_done, cursor_end_done, cursor_home_done,
    cursor_up_done, cycle_sort_done, cycle_type_done, open_search_done, quit_app_done, search_pop_done,
    search_push_done, skip_done, stats_scroll_bottom_done, stats_scroll_by_done, stats_scroll_top_done,
    switch_screen_done, toggle_help_done, toggle_pending_done, toggle_stats_done,
    type_mgr_begin_add_done, type_mgr_begin_rename_done, type_mgr_cursor_down_done,
    type_mgr_cursor_end_done, type_mgr_cursor_home_done, type_mgr_cursor_up_done,
    type_mgr_input_cancel_done, type_mgr_input_pop_done, type_mgr_input_push_done,
};
use crate::forms::{
    AddField, EditField, FormOutcome, KeyCode, KeyEvent, TypeManagerMode, add_key_done, edit_key_done,
};
use crate::model::STATUS_COUNT;

verus! {

/// Work a key asks for that needs the server or the outside world.
#[derive(Clone, Copy, PartialEq, Eq, Structural)]
pub enum Command {
    Nothing,
    /// Draw a new pair to compare.
    NextPair,
    /// Copy the title under the cursor to the clipboard.
    Yank,
    /// Move the row under the cursor to the next status.
    ToggleStatus,
    /// Fetch the rows again.
    Reload,
    /// Vote on the pair on show; `true` when the first entry won.
    Vote(bool),
    /// Take back the last vote.
    UndoVote,
    /// Delete the row the confirmation names.
    ConfirmDelete,
    /// Save the add form.
    SubmitAdd,
    /// Save the edit form.
    SubmitEdit,
    /// Save the type manager's input line.
    TypeMgrSubmit,
    /// Delete the type under the type manager's cursor.
    TypeMgrDelete,
    /// Move the type under the type manager's cursor by the given places.
    TypeMgrMove(i32),
}

/// Keys on the list screen.
pub open spec fn list_key_done(pre: App, post: App, key: KeyEvent, cmd: Command) -> bool {
    match key.code {
        KeyCode::Tab => switch_screen_done(pre, post, Screen::Compare) && cmd == Command::NextPair,
        KeyCode::Char('j') | KeyCode::Down => cursor_down_done(pre, post) && cmd == Command::Nothing,
        KeyCode::Char('k') | KeyCode::Up => cursor_up_done(pre, post) && cmd == Command::Nothing,
        KeyCode::Char('g') => cursor_home_done(pre, post) && cmd == Command::Nothing,
        KeyCode::Char('G') => cursor_end_done(pre, post) && cmd == Command::Nothing,
        KeyCode::Char('/') => open_search_done(pre, post) && cmd == Command::Nothing,
        KeyCode::Char('p') => toggle_pending_done(pre, post) && cmd == Command::Nothing,
        KeyCode::Char('t') => cycle_type_done(pre, post, !key.shift) && cmd == Command::Nothing,
        KeyCode::Char('T') => cycle_type_done(pre, post, false) && cmd == Command::Nothing,
        KeyCode::Char('N') => begin_type_manager_done(pre, post) && cmd == Command::Nothing,
        KeyCode::Char('a') => begin_add_done(pre, post) && cmd == Command::Nothing,
        KeyCode::Char('d') => post == pre && cmd == Command::ToggleStatus,
        KeyCode::Char('x') => begin_delete_done(pre, post) && cmd == Command::Nothing,
        KeyCode::Char('y') => post == pre && cmd == Command::Yank,
        KeyCode::Char('o') => cycle_sort_done(pre, post) && cmd == Command::Nothing,
        KeyCode::Char('?') => toggle_stats_done(pre, post) && cmd == Command::Nothing,
        KeyCode::Char('H') => toggle_help_done(pre, post) && cmd == Command::Nothing,
        KeyCode::Char('r') => post == pre && cmd == Command::Reload,
        KeyCode::Char('q') => quit_app_done(pre, post) && cmd == Command::Nothing,
        KeyCode::Enter => begin_edit_done(pre, post) && cmd == Command::Nothing,
        _ => post == pre && cmd == Command::Nothing,
    }
}

/// Keys while typing a search.
pub open spec fn search_key_done(pre: App, post: App, key: KeyEvent, cmd: Command) -> bool {
    &&& cmd == Command::Nothing
    &&& match key.code {
        KeyCode::Esc => close_search_done(pre, post, true),
        KeyCode::Enter => close_search_done(pre, post, false),
        KeyCode::Backspace => search_pop_done(pre, post),
        KeyCode::Char(c) => search_push_done(pre, post, c),
        _ => post == pre,
    }
}

/// Keys on the compare screen.
pub open spec fn compare_key_done(pre: App, post: App, key: KeyEvent, cmd: Command) -> bool {
    match key.code {
        KeyCode::Tab => switch_screen_done(pre, post, Screen::List) && cmd == Command::Nothing,
        KeyCode::Char('1') => post == pre && cmd == Command::Vote(true),
        KeyCode::Char('2') => post == pre && cmd == Command::Vote(false),
        KeyCode::Char('s') => skip_done(pre, post) && cmd == Command::NextPair,
        KeyCode::Char('u') => post == pre && cmd == Command::UndoVote,
        KeyCode::Char('H') => toggle_help_done(pre, post) && cmd == Command::Nothing,
        KeyCode::Char('q') => quit_app_done(pre, post) && cmd == Command::Nothing,
        _ => post == pre && cmd == Command::Nothing,
    }
}

/// Keys on the statistics screen.
pub open spec fn stats_key_done(pre: App, post: App, key: KeyEvent, cmd: Command) -> bool {
    &&& cmd == Command::Nothing
    &&& match key.code {
        KeyCode::Char('?') | KeyCode::Char('q') | KeyCode::Esc | KeyCode::Tab => toggle_stats_done(
            pre,
            post,
        ),
        KeyCode::Char('H') => toggle_help_done(pre, post),
        KeyCode::Char('j') | KeyCode::Down => stats_scroll_by_done(pre, post, 1),
        KeyCode::Char('k') | KeyCode::Up => stats_scroll_by_done(pre, post, -1i16),
        KeyCode::Char('d') | KeyCode::PageDown => stats_scroll_by_done(pre, post, 10),
        KeyCode::Char('u') | KeyCode::PageUp => stats_scroll_by_done(pre, post, -10i16),
        KeyCode::Char('g') | KeyCode::Home => stats_scroll_top_done(pre, post),
        KeyCode::Char('G') | KeyCode::End => stats_scroll_bottom_done(pre, post),
        _ => post == pre,
    }
}

/// Keys in a confirmation dialog.
pub open spec fn confirm_key_done(pre: App, post: App, key: KeyEvent, cmd: Command) -> bool {
    match key.code {
        KeyCode::Char('y') => post == pre && cmd == Command::ConfirmDelete,
        KeyCode::Char('n') | KeyCode::Esc => confirm_no_done(pre, post) && cmd == Command::Nothing,
        _ => post == pre && cmd == Command::Nothing,
    }
}

/// The number of places the form's type selector cycles through.
pub open spec fn type_choices(a: App) -> usize {
    if a.types@.len() == 0 {
        1
    } else {
        a.types@.len() as usize
    }
}

/// Keys in the add form.
pub open spec fn add_form_key_done(pre: App, post: App, key: KeyEvent, cmd: Command) -> bool {
    match pre.modal {
        Modal::Add(m) => if key.code == KeyCode::Esc {
            post == (App { modal: Modal::Hidden, ..pre }) && cmd == Command::Nothing
        } else if key.code == KeyCode::Enter && m.focus == AddField::Status {
            post == pre && cmd == Command::SubmitAdd
        } else {
            &&& post.modal matches Modal::Add(n) && add_key_done(
                m,
                n,
                key,
                type_choices(pre),
                FormOutcome::Stay,
            )
            &&& post == (App { modal: post.modal, ..pre })
            &&& cmd == Command::Nothing
        },
        _ => post == pre && cmd == Command::Nothing,
    }
}

/// Keys in the edit form.
pub open spec fn edit_form_key_done(pre: App, post: App, key: KeyEvent, cmd: Command) -> bool {
    match pre.modal {
        Modal::Edit(m) => if key.code == KeyCode::Esc {
            post == (App { modal: Modal::Hidden, ..pre }) && cmd == Command::Nothing
        } else if key.code == KeyCode::Enter && m.focus == EditField::Status {
            post == pre && cmd == Command::SubmitEdit
        } else {
            &&& post.modal matches Modal::Edit(n) && edit_key_done(
                m,
                n,
                key,
                type_choices(pre),
                FormOutcome::Stay,
            )
            &&& post == (App { modal: post.modal, ..pre })
            &&& cmd == Command::Nothing
        },
        _ => post == pre && cmd == Command::Nothing,
    }
}

/// Keys in the type manager.
pub open spec fn type_manager_key_done(pre: App, post: App, key: KeyEvent, cmd: Command) -> bool {
    match pre.modal {
        Modal::TypeManager(m) => match m.mode {
            TypeManagerMode::Browse => match key.code {
                KeyCode::Esc | KeyCode::Char('q') => post == (App { modal: Modal::Hidden, ..pre })
                    && cmd == Command::Nothing,
                KeyCode::Char('j') | KeyCode::Down => type_mgr_cursor_down_done(pre, post) && cmd
                    == Command::Nothing,
                KeyCode::Char('k') | KeyCode::Up => type_mgr_cursor_up_done(pre, post) && cmd
                    == Command::Nothing,
                KeyCode::Char('g') => type_mgr_cursor_home_done(pre, post) && cmd == Command::Nothing,
                KeyCode::Char('G') => type_mgr_cursor_end_done(pre, post) && cmd == Command::Nothing,
                KeyCode::Char('a') => type_mgr_begin_add_done(pre, post) && cmd == Command::Nothing,
                KeyCode::Char('r') => type_mgr_begin_rename_done(pre, post) && cmd
                    == Command::Nothing,
                KeyCode::Char('x') => post == pre && cmd == Command::TypeMgrDelete,
                KeyCode::Char('J') => post == pre && cmd == Command::TypeMgrMove(1),
                KeyCode::Char('K') => post == pre && cmd == Command::TypeMgrMove(-1i32),
                _ => post == pre && cmd == Command::Nothing,
            },
            _ => match key.code {
                KeyCode::Esc => type_mgr_input_cancel_done(pre, post) && cmd == Command::Nothing,
                KeyCode::Enter => post == pre && cmd == Command::TypeMgrSubmit,
                KeyCode::Backspace => type_mgr_input_pop_done(pre, post) && cmd == Command::Nothing,
                KeyCode::Char(c) => type_mgr_input_push_done(pre, post, c) && cmd == Command::Nothing,
                _ => post == pre && cmd == Command::Nothing,
            },
        },
        _ => post == pre && cmd == Command::Nothing,
    }
}

/// A key press, routed by the open dialog, else by the screen (and, on the
/// list, by whether a search is being typed).
pub open spec fn key_done(pre: App, post: App, key: KeyEvent, cmd: Command) -> bool {
    match pre.modal {
        Modal::Hidden => match pre.screen {
            Screen::List => if pre.list.search_active {
                search_key_done(pre, post, key, cmd)
            } else {
                list_key_done(pre, post, key, cmd)
            },
            Screen::Compare => compare_key_done(pre, post, key, cmd),
            Screen::Stats => stats_key_done(pre, post, key, cmd),
        },
        Modal::Add(_) => add_form_key_done(pre, post, key, cmd),
        Modal::Edit(_) => edit_form_key_done(pre, post, key, cmd),
        Modal::Confirm(_) => confirm_key_done(pre, post, key, cmd),
        Modal::TypeManager(_) => type_manager_key_done(pre, post, key, cmd),
    }
}

/// In the type manager, while browsing, `K` asks to move the type under the
/// cursor one place up (towards the first) and `J` one place down, so the
/// two ask for opposite moves; neither changes the state by itself.
pub proof fn lemma_manager_move_keys(pre: App, post_k: App, post_j: App, kk: KeyEvent, kj: KeyEvent, ck: Command, cj: Command)
    requires
        pre.modal matches Modal::TypeManager(m) && m.mode == TypeManagerMode::Browse,
        kk.code == KeyCode::Char('K'),
        kj.code == KeyCode::Char('J'),
        key_done(pre, post_k, kk, ck),
        key_done(pre, post_j, kj, cj),
    ensures
        ck == Command::TypeMgrMove(-1i32),
        cj == Command::TypeMgrMove(1),
        ck matches Command::TypeMgrMove(dk) && cj matches Command::TypeMgrMove(dj) && dk + dj == 0 && dk < 0,
        post_k == pre,
        post_j == pre,
        ({
            let m = pre.modal->TypeManager_0;
            let len = pre.types@.len() as int;
            let dk = ck->TypeMgrMove_0;
            let dj = cj->TypeMgrMove_0;
            let up = clamp_int(m.cursor + dk, 0, len - 1);
            0 < m.cursor < len ==> up == m.cursor - 1 && clamp_int(up + dj, 0, len - 1) == m.cursor
                && swapped(swapped(pre.types@, m.cursor as int, up), up, m.cursor as int) == pre.types@
        }),
{
    let m = pre.modal->TypeManager_0;
    let len = pre.types@.len() as int;
    if 0 < m.cursor < len {
        crate::app::lemma_move_back(pre.types@, m.cursor as int, m.cursor - 1);
    }
}

/// Handles a key on the list screen.
pub fn handle_list_key(app: &mut App, key: KeyEvent) -> (cmd: Command)
    requires
        old(app).wf(),
    ensures
        final(app).wf(),
        list_key_done(*old(app), *final(app), key, cmd),
{
    match key.code {
        KeyCode::Tab => {
            app.switch_screen(Screen::Compare);
            Command::NextPair
        },
        KeyCode::Char('j') | KeyCode::Down => {
            app.cursor_down();
            Command::Nothing
        },
        KeyCode::Char('k') | KeyCode::Up => {
            app.cursor_up();
            Command::Nothing
        },
        KeyCode::Char('g') => {
            app.cursor_home();
            Command::Nothing
        },
        KeyCode::Char('G') => {
            app.cursor_end();
            Command::Nothing
        },
        KeyCode::Char('/') => {
            app.open_search();
            Command::Nothing
        },
        KeyCode::Char('p') => {
            app.toggle_pending();
            Command::Nothing
        },
        KeyCode::Char('t') => {
            if key.shift {
                app.cycle_type(false);
            } else {
                app.cycle_type(true);
            }
            Command::Nothing
        },
        KeyCode::Char('T') => {
            app.cycle_type(false);
            Command::Nothing
        },
        KeyCode::Char('N') => {
            app.begin_type_manager();
            Command::Nothing
        },
        KeyCode::Char('a') => {
            app.begin_add();
            Command::Nothing
        },
        KeyCode::Char('d') => Command::ToggleStatus,
        KeyCode::Char('x') => {
            app.begin_delete();
            Command::Nothing
        },
        KeyCode::Char('y') => Command::Yank,
        KeyCode::Char('o') => {
            app.cycle_sort();
            Command::Nothing
        },
        KeyCode::Char('?') => {
            app.toggle_stats();
            Command::Nothing
        },
        KeyCode::Char('H') => {
            app.toggle_help();
            Command::Nothing
        },
        KeyCode::Char('r') => Command::Reload,
        KeyCode::Char('q') => {
            app.quit_app();
            Command::Nothing
        },
        KeyCode::Enter => {
            app.begin_edit();
            Command::Nothing
        },
        _ => Command::Nothing,
    }
}

/// Handles a key while a search is typed.
pub fn handle_search_key(app: &mut App, key: KeyEvent) -> (cmd: Command)
    requires
        old(app).wf(),
    ensures
        final(app).wf(),
        search_key_done(*old(app), *final(app), key, cmd),
{
    match key.code {
        KeyCode::Esc => app.close_search(true),
        KeyCode::Enter => app.close_search(false),
        KeyCode::Backspace => app.search_pop(),
        KeyCode::Char(c) => app.search_push(c),
        _ => {},
    }
    Command::Nothing
}

/// Handles a key on the compare screen.
pub fn handle_compare_key(app: &mut App, key: KeyEvent) -> (cmd: Command)
    requires
        old(app).wf(),
    ensures
        final(app).wf(),
        compare_key_done(*old(app), *final(app), key, cmd),
{
    match key.code {
        KeyCode::Tab => {
            app.switch_screen(Screen::List);
            Command::Nothing
        },
        KeyCode::Char('1') => Command::Vote(true),
        KeyCode::Char('2') => Command::Vote(false),
        KeyCode::Char('s') => {
            app.skip();
            Command::NextPair
        },
        KeyCode::Char('u') => Command::UndoVote,
        KeyCode::Char('H') => {
            app.toggle_help();
            Command::Nothing
        },
        KeyCode::Char('q') => {
            app.quit_app();
            Command::Nothing
        },
        _ => Command::Nothing,
    }
}

/// Handles a key on the statistics screen.
pub fn handle_stats_key(app: &mut App, key: KeyEvent) -> (cmd: Command)
    requires
        old(app).wf(),
    ensures
        final(app).wf(),
        stats_key_done(*old(app), *final(app), key, cmd),
{
    match key.code {
        KeyCode::Char('?') | KeyCode::Char('q') | KeyCode::Esc | KeyCode::Tab => {
            app.toggle_stats();
        },
        KeyCode::Char('H') => app.toggle_help(),
        KeyCode::Char('j') | KeyCode::Down => app.stats_scroll_by(1),
        KeyCode::Char('k') | KeyCode::Up => app.stats_scroll_by(-1),
        KeyCode::Char('d') | KeyCode::PageDown => app.stats_scroll_by(10),
        KeyCode::Char('u') | KeyCode::PageUp => app.stats_scroll_by(-10),
        KeyCode::Char('g') | KeyCode::Home => app.stats_scroll_top(),
        KeyCode::Char('G') | KeyCode::End => app.stats_scroll_bottom(),
        _ => {},
    }
    Command::Nothing
}

/// Handles a key in a confirmation dialog.
pub fn handle_confirm_key(app: &mut App, key: KeyEvent) -> (cmd: Command)
    requires
        old(app).wf(),
    ensures
        final(app).wf(),
        confirm_key_done(*old(app), *final(app), key, cmd),
{
    match key.code {
        KeyCode::Char('y') => Command::ConfirmDelete,
        KeyCode::Char('n') | KeyCode::Esc => {
            app.confirm_no();
            Command::Nothing
        },
        _ => Command::Nothing,
    }
}

/// Handles a key in the add form.
pub fn handle_add_key(app: &mut App, key: KeyEvent) -> (cmd: Command)
    requires
        old(app).wf(),
    ensures
        final(app).wf(),
        add_form_key_done(*old(app), *final(app), key, cmd),
{
    let types_len = if app.types.len() == 0 {
        1
    } else {
        app.types.len()
    };
    let outcome = match &mut app.modal {
        Modal::Add(m) => m.handle_key(key, types_len),
        _ => {
            return Command::Nothing;
        },
    };
    match outcome {
        FormOutcome::Close => {
            app.modal = Modal::Hidden;
            Command::Nothing
        },
        FormOutcome::Submit => Command::SubmitAdd,
        FormOutcome::Stay => Command::Nothing,
    }
}

/// Handles a key in the edit form.
pub fn handle_edit_key(app: &mut App, key: KeyEvent) -> (cmd: Command)
    requires
        old(app).wf(),
    ensures
        final(app).wf(),
        edit_form_key_done(*old(app), *final(app), key, cmd),
{
    let types_len = if app.types.len() == 0 {
        1
    } else {
        app.types.len()
    };
    let outcome = match &mut app.modal {
        Modal::Edit(m) => m.handle_key(key, types_len),
        _ => {
            return Command::Nothing;
        },
    };
    match outcome {
        FormOutcome::Close => {
            app.modal = Modal::Hidden;
            Command::Nothing
        },
        FormOutcome::Submit => Command::SubmitEdit,
        FormOutcome::Stay => Command::Nothing,
    }
}

/// Handles a key in the type manager.
pub fn handle_type_manager_key(app: &mut App, key: KeyEvent) -> (cmd: Command)
    requires
        old(app).wf(),
    ensures
        final(app).wf(),
        type_manager_key_done(*old(app), *final(app), key, cmd),
{
    let mode = match &app.modal {
        Modal::TypeManager(m) => m.mode,
        _ => {
            return Command::Nothing;
        },
    };
    match mode {
        TypeManagerMode::Browse => match key.code {
            KeyCode::Esc | KeyCode::Char('q') => {
                app.modal = Modal::Hidden;
                Command::Nothing
            },
            KeyCode::Char('j') | KeyCode::Down => {
                app.type_mgr_cursor_down();
                Command::Nothing
            },
            KeyCode::Char('k') | KeyCode::Up => {
                app.type_mgr_cursor_up();
                Command::Nothing
            },
            KeyCode::Char('g') => {
                app.type_mgr_cursor_home();
                Command::Nothing
            },
            KeyCode::Char('G') => {
                app.type_mgr_cursor_end();
                Command::Nothing
            },
            KeyCode::Char('a') => {
                app.type_mgr_begin_add();
                Command::Nothing
            },
            KeyCode::Char('r') => {
                app.type_mgr_begin_rename();
                Command::Nothing
            },
            KeyCode::Char('x') => Command::TypeMgrDelete,
            KeyCode::Char('J') => Command::TypeMgrMove(1),
            KeyCode::Char('K') => Command::TypeMgrMove(-1),
            _ => Command::Nothing,
        },
        _ => match key.code {
            KeyCode::Esc => {
                app.type_mgr_input_cancel();
                Command::Nothing
            },
            KeyCode::Enter => Command::TypeMgrSubmit,
            KeyCode::Backspace => {
                app.type_mgr_input_pop();
                Command::Nothing
            },
            KeyCode::Char(c) => {
                app.type_mgr_input_push(c);
                Command::Nothing
            },
            _ => Command::Nothing,
        },
    }
}

/// Routes a key press (see [`key_done`]).
pub fn dispatch_key(app: &mut App, key: KeyEvent) -> (cmd: Command)
    requires
        old(app).wf(),
    ensures
        final(app).wf(),
        key_done(*old(app), *final(app), key, cmd),
{
    match &app.modal {
        Modal::Hidden => match app.screen {
            Screen::List => {
                if app.list.search_active {
                    handle_search_key(app, key)
                } else {
                    handle_list_key(app, key)
                }
            },
            Screen::Compare => handle_compare_key(app, key),
            Screen::Stats => handle_stats_key(app, key),
        },
        Modal::Add(_) => handle_add_key(app, key),
        Modal::Edit(_) => handle_edit_key(app, key),
        Modal::Confirm(_) => handle_confirm_key(app, key),
        Modal::TypeManager(_) => handle_type_manager_key(app, key),
    }
}

} // verus!
