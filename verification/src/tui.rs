//! The launcher's state: the workspace list, the filter typed so far, the selection, the
//! open dialog and the status line; and how each key press changes it.
use vstd::prelude::*;

use crate::env::Workspace;
use crate::text;

verus! {

/// The dialog shown over the list.
#[derive(Clone, Copy, Debug, PartialEq, Eq, Structural)]
pub enum Dialog {
    Closed,
    Save,
    Rename,
    ConfirmDelete,
    Shortcut,
    Settings,
}

/// How a status message is shown.
#[derive(Clone, Copy, Debug, PartialEq, Eq, Structural)]
pub enum StatusKind {
    Info,
    Success,
    Error,
}

/// The status line.
#[derive(Debug)]
pub struct StatusLine {
    pub kind: StatusKind,
    pub text: String,
}

/// The key of a key press.
#[derive(Clone, Copy, Debug, PartialEq, Eq, Structural)]
pub enum KeyCode {
    Char(char),
    Esc,
    Enter,
    Backspace,
    Up,
    Down,
    Other,
}

/// A key press, with whether Control was held.
#[derive(Clone, Copy, Debug, PartialEq, Eq, Structural)]
pub struct Key {
    pub code: KeyCode,
    pub ctrl: bool,
}

/// What the launcher asks of its caller after a key press.
#[derive(Debug)]
pub enum Action {
    Nothing,
    Quit,
    Launch(String),
    Save(String),
    Edit(String),
    Delete(String),
    /// Rename the first workspace to the second name.
    Rename(String, String),
    /// Set the Ghostty shortcut to this text.
    SetShortcut(String),
    ToggleCloseTab,
}

/// The launcher's state. Times are milliseconds on the caller's clock.
#[derive(Debug)]
pub struct App {
    pub workspaces: Vec<Workspace>,
    pub selected: usize,
    pub filter: String,
    /// Whether '/' was pressed: every typed character then goes to the filter.
    pub searching: bool,
    pub show_preview: bool,
    pub dialog: Dialog,
    pub save_input: String,
    pub splash_started_ms: u64,
    pub splash_visible: bool,
    pub status: Option<StatusLine>,
    pub status_expiry_ms: Option<u64>,
}

// ---------------------------------------------------------------------------
// Model
// ---------------------------------------------------------------------------

/// The launcher's state as a value.
pub struct AppModel {
    pub workspaces: Seq<Workspace>,
    pub selected: nat,
    pub filter: Seq<char>,
    pub searching: bool,
    pub show_preview: bool,
    pub dialog: Dialog,
    pub save_input: Seq<char>,
    pub splash_started_ms: u64,
    pub splash_visible: bool,
    pub status: Option<(StatusKind, Seq<char>)>,
    pub status_expiry_ms: Option<u64>,
}

/// An action as a value.
pub enum Act {
    Nothing,
    Quit,
    Launch(Seq<char>),
    Save(Seq<char>),
    Edit(Seq<char>),
    Delete(Seq<char>),
    Rename(Seq<char>, Seq<char>),
    SetShortcut(Seq<char>),
    ToggleCloseTab,
}

pub open spec fn status_model(s: Option<StatusLine>) -> Option<(StatusKind, Seq<char>)> {
    match s {
        Some(l) => Some((l.kind, l.text@)),
        None => None,
    }
}

pub open spec fn model(a: App) -> AppModel {
    AppModel {
        workspaces: a.workspaces@,
        selected: a.selected as nat,
        filter: a.filter@,
        searching: a.searching,
        show_preview: a.show_preview,
        dialog: a.dialog,
        save_input: a.save_input@,
        splash_started_ms: a.splash_started_ms,
        splash_visible: a.splash_visible,
        status: status_model(a.status),
        status_expiry_ms: a.status_expiry_ms,
    }
}

pub open spec fn act(a: Action) -> Act {
    match a {
        Action::Nothing => Act::Nothing,
        Action::Quit => Act::Quit,
        Action::Launch(n) => Act::Launch(n@),
        Action::Save(n) => Act::Save(n@),
        Action::Edit(n) => Act::Edit(n@),
        Action::Delete(n) => Act::Delete(n@),
        Action::Rename(a, b) => Act::Rename(a@, b@),
        Action::SetShortcut(t) => Act::SetShortcut(t@),
        Action::ToggleCloseTab => Act::ToggleCloseTab,
    }
}

/// Whether a workspace shows under the filter: every workspace when the filter is empty, else
/// those whose lowercased name holds the lowercased filter.
pub open spec fn shown(w: Workspace, filter: Seq<char>) -> bool {
    filter.len() == 0 || text::contains_seq(text::lower_text(w.name@), text::lower_text(filter))
}

/// The positions of the workspaces shown under the filter, in list order.
pub open spec fn visible(ws: Seq<Workspace>, filter: Seq<char>) -> Seq<usize>
    decreases ws.len(),
{
    if ws.len() == 0 {
        seq![]
    } else {
        let v = visible(ws.drop_last(), filter);
        if shown(ws.last(), filter) {
            v.push((ws.len() - 1) as usize)
        } else {
            v
        }
    }
}

pub open spec fn visible_of(m: AppModel) -> Seq<usize> {
    visible(m.workspaces, m.filter)
}

/// The selection is on a shown workspace, or at the top when none is shown.
pub open spec fn selection_ok(m: AppModel) -> bool {
    if visible_of(m).len() == 0 {
        m.selected == 0
    } else {
        m.selected < visible_of(m).len()
    }
}

/// The selected workspace's position in the list.
pub open spec fn selected_index(m: AppModel) -> Option<int> {
    if m.selected < visible_of(m).len() {
        Some(visible_of(m)[m.selected as int] as int)
    } else {
        None
    }
}

pub open spec fn clamped(sel: int, len: nat) -> nat {
    if len == 0 {
        0
    } else if sel < 0 {
        0
    } else if sel > len - 1 {
        (len - 1) as nat
    } else {
        sel as nat
    }
}

/// Four seconds after `now_ms`, or the clock's last value.
pub open spec fn expiry_after(now_ms: u64) -> u64 {
    if now_ms + 4000 > u64::MAX {
        u64::MAX
    } else {
        (now_ms + 4000) as u64
    }
}

pub open spec fn with_status(m: AppModel, kind: StatusKind, text: Seq<char>, now_ms: u64) -> AppModel {
    AppModel { status: Some((kind, text)), status_expiry_ms: Some(expiry_after(now_ms)), ..m }
}

pub open spec fn no_selection_text() -> Seq<char> {
    "No workspace selected"@
}

pub open spec fn selected_name(m: AppModel) -> Seq<char> {
    m.workspaces[selected_index(m).unwrap()].name@
}

/// Position `k` of the shown list holds the first shown workspace named `name`.
pub open spec fn is_first_named(m: AppModel, name: Seq<char>, k: int) -> bool {
    let v = visible_of(m);
    &&& 0 <= k < v.len()
    &&& m.workspaces[v[k] as int].name@ == name
    &&& forall|j: int| 0 <= j < k ==> #[trigger] m.workspaces[v[j] as int].name@ != name
}

/// The selection that `name` gets: the position of the first shown workspace with that name,
/// or the top when none is shown.
pub open spec fn named_selection(m: AppModel, name: Seq<char>) -> nat {
    if exists|k: int| is_first_named(m, name, k) {
        (choose|k: int| is_first_named(m, name, k)) as nat
    } else {
        0
    }
}

/// The letters that are commands on the list while no search is going on.
pub open spec fn is_command_key(c: char) -> bool {
    c == 'a' || c == 'n' || c == 'd' || c == 'e' || c == 'g' || c == 'q' || c == 't' || c == 'p'
        || c == '/'
}

/// Whether a typed character goes to the filter: every character once a search is going on
/// ('/' pressed, or something typed already), else every character that is not a command.
pub open spec fn extends_filter(m: AppModel, c: char) -> bool {
    m.searching || m.filter.len() > 0 || !is_command_key(c)
}

/// The text being typed in a dialog after an editing key: Backspace deletes the last
/// character, a character typed without Control is added, other keys leave it.
pub open spec fn edited_input(input: Seq<char>, key: Key) -> Seq<char> {
    match key.code {
        KeyCode::Backspace => if input.len() > 0 {
            input.drop_last()
        } else {
            input
        },
        KeyCode::Char(c) => if !key.ctrl {
            input.push(c)
        } else {
            input
        },
        _ => input,
    }
}

pub open spec fn no_selection(m: AppModel, now_ms: u64) -> (AppModel, Act) {
    (with_status(m, StatusKind::Error, no_selection_text(), now_ms), Act::Nothing)
}

/// A key press on the list: typing searches; '/' starts a search; arrows move; Enter launches;
/// 'a' saves the front window, 'n' renames, 'd' deletes and 'e' edits the selected workspace;
/// 'g' edits the Ghostty shortcut; 't' shows the settings; 'p' toggles the preview; 'q' quits;
/// Esc ends a search, or quits.
pub open spec fn main_key_step(m: AppModel, key: Key, now_ms: u64) -> (AppModel, Act) {
    let len = visible_of(m).len();
    match key.code {
        KeyCode::Char(c) if !key.ctrl && extends_filter(m, c) => (
            AppModel { filter: m.filter.push(c), selected: 0, ..m },
            Act::Nothing,
        ),
        KeyCode::Char('/') => (AppModel { searching: true, ..m }, Act::Nothing),
        KeyCode::Char('q') => (m, Act::Quit),
        KeyCode::Esc => if m.filter.len() > 0 || m.searching {
            (AppModel { filter: seq![], searching: false, selected: 0, ..m }, Act::Nothing)
        } else {
            (m, Act::Quit)
        },
        KeyCode::Down => (AppModel { selected: clamped(m.selected as int + 1, len), ..m }, Act::Nothing),
        KeyCode::Up => (AppModel { selected: clamped(m.selected as int - 1, len), ..m }, Act::Nothing),
        KeyCode::Enter => match selected_index(m) {
            Some(_) => (m, Act::Launch(selected_name(m))),
            None => no_selection(m, now_ms),
        },
        KeyCode::Char('a') => (AppModel { dialog: Dialog::Save, save_input: seq![], ..m }, Act::Nothing),
        KeyCode::Char('n') => match selected_index(m) {
            Some(_) => (AppModel { dialog: Dialog::Rename, save_input: selected_name(m), ..m }, Act::Nothing),
            None => no_selection(m, now_ms),
        },
        KeyCode::Char('e') => match selected_index(m) {
            Some(_) => (m, Act::Edit(selected_name(m))),
            None => no_selection(m, now_ms),
        },
        KeyCode::Char('d') => match selected_index(m) {
            Some(_) => (AppModel { dialog: Dialog::ConfirmDelete, ..m }, Act::Nothing),
            None => no_selection(m, now_ms),
        },
        KeyCode::Char('g') => (AppModel { dialog: Dialog::Shortcut, save_input: seq![], ..m }, Act::Nothing),
        KeyCode::Char('t') => (AppModel { dialog: Dialog::Settings, ..m }, Act::Nothing),
        KeyCode::Char('p') => (AppModel { show_preview: !m.show_preview, ..m }, Act::Nothing),
        KeyCode::Backspace => (
            AppModel {
                filter: if m.filter.len() > 0 {
                    m.filter.drop_last()
                } else {
                    m.filter
                },
                selected: 0,
                ..m
            },
            Act::Nothing,
        ),
        _ => (m, Act::Nothing),
    }
}

pub open spec fn empty_name_text() -> Seq<char> {
    "Workspace name cannot be empty"@
}

/// A key press in the save dialog: Esc cancels, Enter asks to save under the trimmed name (an
/// empty name is refused), other keys edit the name.
pub open spec fn save_key_step(m: AppModel, key: Key, now_ms: u64) -> (AppModel, Act) {
    match key.code {
        KeyCode::Esc => (dialogs_closed(m), Act::Nothing),
        KeyCode::Enter => if text::trim(m.save_input).len() == 0 {
            (with_status(m, StatusKind::Error, empty_name_text(), now_ms), Act::Nothing)
        } else {
            (m, Act::Save(text::trim(m.save_input)))
        },
        _ => (AppModel { save_input: edited_input(m.save_input, key), ..m }, Act::Nothing),
    }
}

/// A key press in the rename dialog: Esc cancels, Enter asks to rename the selected workspace
/// to the trimmed name (an empty name is refused; with no selection the dialog closes), other
/// keys edit the name.
pub open spec fn rename_key_step(m: AppModel, key: Key, now_ms: u64) -> (AppModel, Act) {
    match key.code {
        KeyCode::Esc => (dialogs_closed(m), Act::Nothing),
        KeyCode::Enter => if text::trim(m.save_input).len() == 0 {
            (with_status(m, StatusKind::Error, empty_name_text(), now_ms), Act::Nothing)
        } else {
            match selected_index(m) {
                Some(_) => (m, Act::Rename(selected_name(m), text::trim(m.save_input))),
                None => (dialogs_closed(m), Act::Nothing),
            }
        },
        _ => (AppModel { save_input: edited_input(m.save_input, key), ..m }, Act::Nothing),
    }
}

/// A key press in the Ghostty shortcut dialog: Esc cancels, Enter asks to set the shortcut
/// typed, other keys edit it.
pub open spec fn shortcut_key_step(m: AppModel, key: Key) -> (AppModel, Act) {
    match key.code {
        KeyCode::Esc => (dialogs_closed(m), Act::Nothing),
        KeyCode::Enter => (m, Act::SetShortcut(m.save_input)),
        _ => (AppModel { save_input: edited_input(m.save_input, key), ..m }, Act::Nothing),
    }
}

/// A key press in the delete confirmation.
pub open spec fn delete_key_step(m: AppModel, key: Key) -> (AppModel, Act) {
    match key.code {
        KeyCode::Esc | KeyCode::Char('n') => (dialogs_closed(m), Act::Nothing),
        KeyCode::Enter | KeyCode::Char('y') => match selected_index(m) {
            Some(_) => (m, Act::Delete(selected_name(m))),
            None => (dialogs_closed(m), Act::Nothing),
        },
        _ => (m, Act::Nothing),
    }
}

/// A key press in the settings dialog.
pub open spec fn settings_key_step(m: AppModel, key: Key) -> (AppModel, Act) {
    match key.code {
        KeyCode::Esc | KeyCode::Enter => (dialogs_closed(m), Act::Nothing),
        KeyCode::Char('c') | KeyCode::Char(' ') => (m, Act::ToggleCloseTab),
        _ => (m, Act::Nothing),
    }
}

/// A key press: Control-C quits from anywhere, else the open dialog (or the list) takes it.
pub open spec fn key_step(m: AppModel, key: Key, now_ms: u64) -> (AppModel, Act) {
    if key.ctrl && key.code == KeyCode::Char('c') {
        (m, Act::Quit)
    } else {
        match m.dialog {
            Dialog::Save => save_key_step(m, key, now_ms),
            Dialog::Rename => rename_key_step(m, key, now_ms),
            Dialog::ConfirmDelete => delete_key_step(m, key),
            Dialog::Shortcut => shortcut_key_step(m, key),
            Dialog::Settings => settings_key_step(m, key),
            Dialog::Closed => main_key_step(m, key, now_ms),
        }
    }
}

/// The list replaced, the selection kept on a shown workspace.
pub open spec fn reloaded(m: AppModel, ws: Seq<Workspace>) -> AppModel {
    AppModel { workspaces: ws, selected: clamped(m.selected as int, visible(ws, m.filter).len()), ..m }
}

/// Any dialog closed and the name being typed emptied.
pub open spec fn dialogs_closed(m: AppModel) -> AppModel {
    AppModel { dialog: Dialog::Closed, save_input: seq![], ..m }
}

/// The first shown workspace named `name` selected.
pub open spec fn name_selected(m: AppModel, name: Seq<char>) -> AppModel {
    AppModel { selected: named_selection(m, name), ..m }
}

pub open spec fn quoted(name: Seq<char>) -> Seq<char> {
    "\""@ + name + "\""@
}

/// After a save request: on success (the file's path and the new list) the dialog closes, the
/// list is reloaded with the saved workspace selected, and a success message shows; on failure
/// the error shows.
pub open spec fn save_finished(m: AppModel, name: Seq<char>, outcome: Result<(String, Vec<Workspace>), String>, now_ms: u64) -> AppModel {
    match outcome {
        Ok((path, ws)) => with_status(
            name_selected(reloaded(dialogs_closed(m), ws@), name),
            StatusKind::Success,
            "Saved workspace "@ + quoted(name) + " to "@ + path@,
            now_ms,
        ),
        Err(msg) => with_status(m, StatusKind::Error, msg@, now_ms),
    }
}

/// After the editor closed: on success the list is reloaded with the edited workspace
/// selected; on failure the error shows.
pub open spec fn edit_finished(m: AppModel, name: Seq<char>, outcome: Result<Vec<Workspace>, String>, now_ms: u64) -> AppModel {
    match outcome {
        Ok(ws) => with_status(
            name_selected(reloaded(m, ws@), name),
            StatusKind::Success,
            "Closed editor for "@ + quoted(name),
            now_ms,
        ),
        Err(msg) => with_status(m, StatusKind::Error, msg@, now_ms),
    }
}

/// After a delete request: on success the dialog closes and the list is reloaded; on failure
/// the error shows.
pub open spec fn delete_finished(m: AppModel, name: Seq<char>, outcome: Result<Vec<Workspace>, String>, now_ms: u64) -> AppModel {
    match outcome {
        Ok(ws) => with_status(
            reloaded(dialogs_closed(m), ws@),
            StatusKind::Success,
            "Removed workspace "@ + quoted(name),
            now_ms,
        ),
        Err(msg) => with_status(m, StatusKind::Error, msg@, now_ms),
    }
}

/// After a rename request: on success the dialog closes and the list is reloaded with the
/// workspace selected under its new name; on failure the error shows.
pub open spec fn rename_finished(
    m: AppModel,
    old_name: Seq<char>,
    new_name: Seq<char>,
    outcome: Result<Vec<Workspace>, String>,
    now_ms: u64,
) -> AppModel {
    match outcome {
        Ok(ws) => with_status(
            name_selected(reloaded(dialogs_closed(m), ws@), new_name),
            StatusKind::Success,
            "Renamed workspace "@ + quoted(old_name) + " to "@ + quoted(new_name),
            now_ms,
        ),
        Err(msg) => with_status(m, StatusKind::Error, msg@, now_ms),
    }
}

/// After the Ghostty shortcut was set: on success (the shortcut as stored) the dialog closes
/// and the new shortcut shows; on failure the error shows.
pub open spec fn shortcut_finished(m: AppModel, outcome: Result<String, String>, now_ms: u64) -> AppModel {
    match outcome {
        Ok(display) => with_status(dialogs_closed(m), StatusKind::Success, "ghostty_shortcut = "@ + display@, now_ms),
        Err(msg) => with_status(m, StatusKind::Error, msg@, now_ms),
    }
}

/// After `close_tab` was toggled: its new display ("on" or "off"), or the error.
pub open spec fn toggle_finished(m: AppModel, outcome: Result<String, String>, now_ms: u64) -> AppModel {
    match outcome {
        Ok(display) => with_status(m, StatusKind::Success, "close_tab = "@ + display@, now_ms),
        Err(msg) => with_status(m, StatusKind::Error, msg@, now_ms),
    }
}

pub open spec fn splash_shown(m: AppModel, now_ms: u64) -> bool {
    m.splash_visible && (if now_ms >= m.splash_started_ms {
        now_ms - m.splash_started_ms
    } else {
        0
    }) < 850
}

// ---------------------------------------------------------------------------
// Lemmas
// ---------------------------------------------------------------------------

pub proof fn lemma_visible_bounds(ws: Seq<Workspace>, filter: Seq<char>)
    ensures
        visible(ws, filter).len() <= ws.len(),
        forall|k: int| 0 <= k < visible(ws, filter).len() ==> #[trigger] visible(ws, filter)[k] < ws.len(),
    decreases ws.len(),
{
    if ws.len() > 0 {
        lemma_visible_bounds(ws.drop_last(), filter);
    }
}

/// Selecting by name lands on a shown workspace, or at the top.
pub proof fn lemma_named_selection_ok(m: AppModel, name: Seq<char>)
    ensures
        selection_ok(name_selected(m, name)),
{
    if exists|k: int| is_first_named(m, name, k) {
        let k = choose|k: int| is_first_named(m, name, k);
        assert(is_first_named(m, name, k));
    }
}

// ---------------------------------------------------------------------------
// Laws
// ---------------------------------------------------------------------------

/// Every key press keeps the selection on a shown workspace, or at the top when no workspace
/// is shown; so does dismissing the splash.
pub proof fn law_key_keeps_selection(m: AppModel, key: Key, now_ms: u64)
    requires
        selection_ok(m),
    ensures
        selection_ok(key_step(m, key, now_ms).0),
        selection_ok(AppModel { splash_visible: false, ..m }),
{
}

/// A launch, edit, delete or rename request always names the selected workspace, which is one
/// of the workspaces shown under the filter; a rename's new name is the trimmed name typed,
/// never empty.
pub proof fn law_request_names_selected(m: AppModel, key: Key, now_ms: u64)
    ensures
        match key_step(m, key, now_ms).1 {
            Act::Launch(n) | Act::Edit(n) | Act::Delete(n) | Act::Rename(n, _) => {
                &&& selected_index(m) is Some
                &&& visible_of(m).contains(selected_index(m).unwrap() as usize)
                &&& 0 <= selected_index(m).unwrap() < m.workspaces.len()
                &&& n == m.workspaces[selected_index(m).unwrap()].name@
            },
            _ => true,
        },
        key_step(m, key, now_ms).1 matches Act::Rename(_, t) ==> (t == text::trim(m.save_input) && t.len() > 0),
{
    lemma_visible_bounds(m.workspaces, m.filter);
    if m.selected < visible_of(m).len() {
        assert(visible_of(m)[m.selected as int] < m.workspaces.len());
    }
}

/// Taking back how a save, edit, delete, rename, shortcut or settings change ended keeps the
/// selection on a shown workspace (or at the top when none is shown).
pub proof fn law_outcomes_keep_selection(
    m: AppModel,
    name: Seq<char>,
    new_name: Seq<char>,
    saved: Result<(String, Vec<Workspace>), String>,
    edited: Result<Vec<Workspace>, String>,
    deleted: Result<Vec<Workspace>, String>,
    renamed: Result<Vec<Workspace>, String>,
    shortcut: Result<String, String>,
    toggled: Result<String, String>,
    now_ms: u64,
)
    requires
        selection_ok(m),
    ensures
        selection_ok(save_finished(m, name, saved, now_ms)),
        selection_ok(edit_finished(m, name, edited, now_ms)),
        selection_ok(delete_finished(m, name, deleted, now_ms)),
        selection_ok(rename_finished(m, name, new_name, renamed, now_ms)),
        selection_ok(shortcut_finished(m, shortcut, now_ms)),
        selection_ok(toggle_finished(m, toggled, now_ms)),
{
    if let Ok((_, ws)) = saved {
        lemma_named_selection_ok(reloaded(dialogs_closed(m), ws@), name);
    }
    if let Ok(ws) = edited {
        lemma_named_selection_ok(reloaded(m, ws@), name);
    }
    if let Ok(ws) = renamed {
        lemma_named_selection_ok(reloaded(dialogs_closed(m), ws@), new_name);
    }
}

/// The ways out: Control-C quits from anywhere and changes nothing; Esc closes any open dialog
/// (emptying the name being typed), and on the list it ends a search (clearing the filter), or
/// quits when there is none.
pub proof fn law_escape_routes(m: AppModel, now_ms: u64)
    ensures
        key_step(m, Key { code: KeyCode::Char('c'), ctrl: true }, now_ms) == (m, Act::Quit),
        m.dialog != Dialog::Closed ==> key_step(m, Key { code: KeyCode::Esc, ctrl: false }, now_ms) == (
            dialogs_closed(m),
            Act::Nothing,
        ),
        m.dialog == Dialog::Closed && (m.filter.len() > 0 || m.searching) ==> key_step(
            m,
            Key { code: KeyCode::Esc, ctrl: false },
            now_ms,
        ) == (AppModel { filter: seq![], searching: false, selected: 0, ..m }, Act::Nothing),
        m.dialog == Dialog::Closed && m.filter.len() == 0 && !m.searching ==> key_step(
            m,
            Key { code: KeyCode::Esc, ctrl: false },
            now_ms,
        ) == (m, Act::Quit),
{
}

/// In the delete confirmation with a workspace selected, Enter confirms just as 'y' does:
/// both ask to delete the selected workspace and change nothing yet; Esc and 'n' cancel.
pub proof fn law_enter_confirms_delete(m: AppModel, now_ms: u64)
    requires
        m.dialog == Dialog::ConfirmDelete,
        selected_index(m) is Some,
    ensures
        key_step(m, Key { code: KeyCode::Enter, ctrl: false }, now_ms) == key_step(
            m,
            Key { code: KeyCode::Char('y'), ctrl: false },
            now_ms,
        ),
        key_step(m, Key { code: KeyCode::Enter, ctrl: false }, now_ms) == (
            m,
            Act::Delete(m.workspaces[selected_index(m).unwrap()].name@),
        ),
        key_step(m, Key { code: KeyCode::Esc, ctrl: false }, now_ms).1 == Act::Nothing,
        key_step(m, Key { code: KeyCode::Char('n'), ctrl: false }, now_ms).1 == Act::Nothing,
{
}

/// Typing searches: on the list, a character that goes to the filter (any character during a
/// search, and any character but a command key otherwise) is added to it and puts the selection
/// back at the top.
pub proof fn law_filter_typing_selects_top(m: AppModel, c: char, now_ms: u64)
    requires
        m.dialog == Dialog::Closed,
        extends_filter(m, c),
    ensures
        key_step(m, Key { code: KeyCode::Char(c), ctrl: false }, now_ms).0
            == (AppModel { filter: m.filter.push(c), selected: 0, ..m }),
{
}

/// '/' searches: on the list with no search going on, it starts one, after which every
/// character typed goes to the filter, command keys included.
pub proof fn law_slash_searches(m: AppModel, c: char, now_ms: u64)
    requires
        m.dialog == Dialog::Closed,
        m.filter.len() == 0,
        !m.searching,
    ensures
        key_step(m, Key { code: KeyCode::Char('/'), ctrl: false }, now_ms) == (
            AppModel { searching: true, ..m },
            Act::Nothing,
        ),
        extends_filter(AppModel { searching: true, ..m }, c),
{
}

/// The documented keys on the list, with no search going on: 'a' opens the save dialog, 'n'
/// the rename dialog for the selected workspace (holding its name), 'g' the Ghostty shortcut
/// dialog, and 'q' quits.
pub proof fn law_list_keys(m: AppModel, now_ms: u64)
    requires
        m.dialog == Dialog::Closed,
        m.filter.len() == 0,
        !m.searching,
    ensures
        key_step(m, Key { code: KeyCode::Char('a'), ctrl: false }, now_ms) == (
            AppModel { dialog: Dialog::Save, save_input: seq![], ..m },
            Act::Nothing,
        ),
        selected_index(m) is Some ==> key_step(m, Key { code: KeyCode::Char('n'), ctrl: false }, now_ms) == (
            AppModel { dialog: Dialog::Rename, save_input: selected_name(m), ..m },
            Act::Nothing,
        ),
        key_step(m, Key { code: KeyCode::Char('g'), ctrl: false }, now_ms) == (
            AppModel { dialog: Dialog::Shortcut, save_input: seq![], ..m },
            Act::Nothing,
        ),
        key_step(m, Key { code: KeyCode::Char('q'), ctrl: false }, now_ms) == (m, Act::Quit),
{
}

// ---------------------------------------------------------------------------
// Executable functions
// ---------------------------------------------------------------------------

/// Removes the last character of a string: std's `String::pop`. Trusted: the contract claims
/// that a non-empty string loses its last character, which is returned, and that an empty one
/// is left as it is and `None` returned.
#[verifier::external_body]
fn pop_char(s: &mut String) -> (r: Option<char>)
    ensures
        old(s)@.len() > 0 ==> final(s)@ == old(s)@.drop_last() && r == Some(old(s)@.last()),
        old(s)@.len() == 0 ==> final(s)@ == old(s)@ && r is None,
{
    s.pop()
}

impl App {
    /// A launcher showing the splash, the whole list with the first workspace selected, and
    /// the key help in the status line.
    pub fn new(workspaces: Vec<Workspace>, now_ms: u64) -> (r: App)
        ensures
            model(r) == (AppModel {
                workspaces: workspaces@,
                selected: 0,
                filter: seq![],
                searching: false,
                show_preview: true,
                dialog: Dialog::Closed,
                save_input: seq![],
                splash_started_ms: now_ms,
                splash_visible: true,
                status: Some((StatusKind::Info, "Type to search, Enter to launch, a to save, t for settings."@)),
                status_expiry_ms: None,
            }),
            selection_ok(model(r)),
    {
        App {
            workspaces,
            selected: 0,
            filter: String::new(),
            searching: false,
            show_preview: true,
            dialog: Dialog::Closed,
            save_input: String::new(),
            splash_started_ms: now_ms,
            splash_visible: true,
            status: Some(StatusLine {
                kind: StatusKind::Info,
                text: "Type to search, Enter to launch, a to save, t for settings.".to_owned(),
            }),
            status_expiry_ms: None,
        }
    }

    /// The positions of the workspaces shown under the filter.
    pub fn visible_indices(&self) -> (r: Vec<usize>)
        ensures
            r@ == visible_of(model(*self)),
    {
        let ghost ws = self.workspaces@;
        let fc = text::to_chars(self.filter.as_str());
        let needle = text::lowercase_chars(&fc);
        let mut r: Vec<usize> = Vec::new();
        assert(ws.take(0) =~= Seq::<Workspace>::empty());
        for i in 0..self.workspaces.len()
            invariant
                ws == self.workspaces@,
                fc@ == self.filter@,
                needle@ == text::lower_text(self.filter@),
                r@ == visible(ws.take(i as int), self.filter@),
        {
            let show = if fc.len() == 0 {
                true
            } else {
                let name = text::lowercase_chars(&text::to_chars(self.workspaces[i].name.as_str()));
                text::contains_chars(&name, &needle)
            };
            assert(ws.take(i + 1).drop_last() =~= ws.take(i as int));
            assert(ws.take(i + 1).last() == ws[i as int]);
            if show {
                r.push(i);
            }
        }
        assert(ws.take(self.workspaces.len() as int) =~= ws);
        r
    }

    /// The number of workspaces shown under the filter.
    fn visible_len(&self) -> (r: usize)
        ensures
            r == visible_of(model(*self)).len(),
    {
        self.visible_indices().len()
    }

    /// The workspaces shown under the filter, in list order.
    pub fn visible_workspaces(&self) -> (r: Vec<&Workspace>)
        ensures
            r@.len() == visible_of(model(*self)).len(),
            forall|k: int| 0 <= k < r@.len() ==> *r@[k] == self.workspaces@[visible_of(model(*self))[k] as int],
    {
        let idx = self.visible_indices();
        proof {
            lemma_visible_bounds(self.workspaces@, self.filter@);
        }
        let mut r: Vec<&Workspace> = Vec::new();
        for k in 0..idx.len()
            invariant
                idx@ == visible_of(model(*self)),
                forall|j: int| 0 <= j < idx@.len() ==> #[trigger] idx@[j] < self.workspaces@.len(),
                r@.len() == k,
                forall|j: int| 0 <= j < k ==> *r@[j] == self.workspaces@[idx@[j] as int],
        {
            assert(idx@[k as int] < self.workspaces@.len());
            r.push(&self.workspaces[idx[k]]);
        }
        r
    }

    /// The selected workspace, when one is shown at the selection.
    pub fn selected_workspace(&self) -> (r: Option<&Workspace>)
        ensures
            match selected_index(model(*self)) {
                Some(i) => r matches Some(w) && *w == self.workspaces@[i],
                None => r is None,
            },
    {
        let idx = self.visible_indices();
        proof {
            lemma_visible_bounds(self.workspaces@, self.filter@);
        }
        if self.selected < idx.len() {
            assert(idx@[self.selected as int] < self.workspaces@.len());
            Some(&self.workspaces[idx[self.selected]])
        } else {
            None
        }
    }

    /// Replaces the workspace list and keeps the selection on a shown workspace.
    pub fn reload(&mut self, workspaces: Vec<Workspace>)
        ensures
            model(*final(self)) == (AppModel {
                workspaces: workspaces@,
                selected: clamped(old(self).selected as int, visible(workspaces@, old(self).filter@).len()),
                ..model(*old(self))
            }),
            selection_ok(model(*final(self))),
    {
        self.workspaces = workspaces;
        self.clamp_selection();
    }

    /// Closes any dialog and empties the name being typed.
    pub fn reset_dialogs(&mut self)
        ensures
            model(*final(self)) == (AppModel { dialog: Dialog::Closed, save_input: seq![], ..model(*old(self)) }),
    {
        self.dialog = Dialog::Closed;
        self.save_input = String::new();
    }

    /// Hides the splash.
    pub fn dismiss_splash(&mut self)
        ensures
            model(*final(self)) == (AppModel { splash_visible: false, ..model(*old(self)) }),
    {
        self.splash_visible = false;
    }

    /// Whether the splash shows at `now_ms`: until dismissed, for 850 ms after the start.
    pub fn is_splash_visible(&self, now_ms: u64) -> (r: bool)
        ensures
            r == splash_shown(model(*self), now_ms),
    {
        self.splash_visible && now_ms.saturating_sub(self.splash_started_ms) < 850
    }

    /// Selects the first shown workspace with this name, or the top when none has it.
    pub fn select_name(&mut self, name: &str)
        ensures
            model(*final(self)) == (AppModel { selected: named_selection(model(*old(self)), name@), ..model(*old(self)) }),
            selection_ok(model(*final(self))),
    {
        let idx = self.visible_indices();
        proof {
            lemma_visible_bounds(self.workspaces@, self.filter@);
        }
        let ghost m = model(*self);
        let target = text::to_chars(name);
        let mut k: usize = 0;
        let mut hit = false;
        while k < idx.len()
            invariant_except_break
                !hit,
                forall|j: int| 0 <= j < k ==> #[trigger] m.workspaces[idx@[j] as int].name@ != name@,
            invariant
                m == model(*self),
                idx@ == visible_of(m),
                target@ == name@,
                k <= idx.len(),
                forall|j: int| 0 <= j < idx@.len() ==> #[trigger] idx@[j] < self.workspaces@.len(),
            ensures
                hit ==> k < idx.len() && m.workspaces[idx@[k as int] as int].name@ == name@,
                forall|j: int| 0 <= j < k ==> #[trigger] m.workspaces[idx@[j] as int].name@ != name@,
                !hit ==> k == idx.len(),
            decreases idx.len() - k,
        {
            assert(idx@[k as int] < self.workspaces@.len());
            let n = text::to_chars(self.workspaces[idx[k]].name.as_str());
            if text::chars_eq(&n, &target) {
                hit = true;
                break;
            }
            k += 1;
        }
        if hit {
            proof {
                assert(is_first_named(m, name@, k as int));
                let c = choose|c: int| is_first_named(m, name@, c);
                if c < k {
                    assert(m.workspaces[idx@[c] as int].name@ != name@);
                } else if c > k {
                    assert(m.workspaces[idx@[k as int] as int].name@ != name@);
                }
            }
            self.selected = k;
        } else {
            proof {
                assert forall|c: int| !is_first_named(m, name@, c) by {
                    if 0 <= c < idx@.len() {
                        assert(m.workspaces[idx@[c] as int].name@ != name@);
                    }
                }
            }
            self.selected = 0;
        }
    }

    /// Keeps the selection on a shown workspace: the top when none is shown, else no lower
    /// than the last shown.
    pub fn clamp_selection(&mut self)
        ensures
            model(*final(self)) == (AppModel {
                selected: clamped(old(self).selected as int, visible_of(model(*old(self))).len()),
                ..model(*old(self))
            }),
            selection_ok(model(*final(self))),
    {
        let len = self.visible_len();
        if len == 0 {
            self.selected = 0;
        } else if self.selected > len - 1 {
            self.selected = len - 1;
        }
    }

    /// Moves the selection by `delta`, staying on the shown workspaces.
    pub fn move_selection(&mut self, delta: isize)
        ensures
            model(*final(self)) == (AppModel {
                selected: clamped(old(self).selected + delta, visible_of(model(*old(self))).len()),
                ..model(*old(self))
            }),
            selection_ok(model(*final(self))),
    {
        let len = self.visible_len();
        if len == 0 {
            self.selected = 0;
            return;
        }
        let last = len - 1;
        if delta >= 0 {
            let d = delta as usize;
            if self.selected >= last || d >= last - self.selected {
                self.selected = last;
            } else {
                self.selected = self.selected + d;
            }
        } else {
            let d: usize = (-(delta + 1)) as usize + 1;
            let next: usize = if d >= self.selected {
                0
            } else {
                self.selected - d
            };
            self.selected = if next > last {
                last
            } else {
                next
            };
        }
    }

    /// Shows a status message until `now_ms` + 4 s.
    pub fn set_status(&mut self, kind: StatusKind, text: String, now_ms: u64)
        ensures
            model(*final(self)) == with_status(model(*old(self)), kind, text@, now_ms),
    {
        self.status = Some(StatusLine { kind, text });
        self.status_expiry_ms = Some(now_ms.saturating_add(4000));
    }

    /// Shows a success message.
    pub fn set_success(&mut self, text: String, now_ms: u64)
        ensures
            model(*final(self)) == with_status(model(*old(self)), StatusKind::Success, text@, now_ms),
    {
        self.set_status(StatusKind::Success, text, now_ms);
    }

    /// Shows an error message.
    pub fn set_error(&mut self, text: String, now_ms: u64)
        ensures
            model(*final(self)) == with_status(model(*old(self)), StatusKind::Error, text@, now_ms),
    {
        self.set_status(StatusKind::Error, text, now_ms);
    }

    /// Clears the status line.
    pub fn clear_status(&mut self)
        ensures
            model(*final(self)) == (AppModel { status: None, status_expiry_ms: None, ..model(*old(self)) }),
    {
        self.status = None;
        self.status_expiry_ms = None;
    }

    /// Clears the status line once its time is up.
    pub fn expire_status(&mut self, now_ms: u64)
        ensures
            match old(self).status_expiry_ms {
                Some(e) => if now_ms >= e {
                    model(*final(self)) == (AppModel { status: None, status_expiry_ms: None, ..model(*old(self)) })
                } else {
                    model(*final(self)) == model(*old(self))
                },
                None => model(*final(self)) == model(*old(self)),
            },
    {
        match self.status_expiry_ms {
            Some(e) => if now_ms >= e {
                self.clear_status();
            },
            None => {},
        }
    }

    /// Whether a typed character goes to the filter: any character during a search ('/'
    /// pressed, or something typed already), else any character that is not a command key.
    pub fn should_extend_filter(&self, c: char) -> (r: bool)
        ensures
            r == extends_filter(model(*self), c),
    {
        if self.searching || !self.filter.as_str().is_empty() {
            return true;
        }
        !(c == 'a' || c == 'n' || c == 'd' || c == 'e' || c == 'g' || c == 'q' || c == 't' || c == 'p'
            || c == '/')
    }

    fn error_no_selection(&mut self, now_ms: u64)
        ensures
            model(*final(self)) == with_status(model(*old(self)), StatusKind::Error, no_selection_text(), now_ms),
    {
        self.set_error("No workspace selected".to_owned(), now_ms);
    }

    /// A key press on the list (see `main_key_step`).
    pub fn handle_main_key(&mut self, key: Key, now_ms: u64) -> (r: Action)
        ensures
            (model(*final(self)), act(r)) == main_key_step(model(*old(self)), key, now_ms),
    {
        proof {
            lemma_visible_bounds(self.workspaces@, self.filter@);
        }
        if let KeyCode::Char(c) = key.code {
            if !key.ctrl && self.should_extend_filter(c) {
                text::push_char(&mut self.filter, c);
                self.selected = 0;
                self.clamp_selection();
                return Action::Nothing;
            }
        }
        match key.code {
            KeyCode::Char('/') => {
                self.searching = true;
                Action::Nothing
            },
            KeyCode::Char('q') => Action::Quit,
            KeyCode::Esc => {
                if !self.filter.as_str().is_empty() || self.searching {
                    self.filter = String::new();
                    self.searching = false;
                    self.selected = 0;
                    return Action::Nothing;
                }
                Action::Quit
            },
            KeyCode::Down => {
                self.move_selection(1);
                Action::Nothing
            },
            KeyCode::Up => {
                self.move_selection(-1);
                Action::Nothing
            },
            KeyCode::Enter => {
                match self.selected_workspace() {
                    Some(w) => Action::Launch(w.name.clone()),
                    None => {
                        self.error_no_selection(now_ms);
                        Action::Nothing
                    },
                }
            },
            KeyCode::Char('a') => {
                self.dialog = Dialog::Save;
                self.save_input = String::new();
                Action::Nothing
            },
            KeyCode::Char('n') => {
                match self.selected_workspace() {
                    Some(w) => {
                        let name = w.name.clone();
                        self.dialog = Dialog::Rename;
                        self.save_input = name;
                    },
                    None => self.error_no_selection(now_ms),
                }
                Action::Nothing
            },
            KeyCode::Char('e') => {
                match self.selected_workspace() {
                    Some(w) => Action::Edit(w.name.clone()),
                    None => {
                        self.error_no_selection(now_ms);
                        Action::Nothing
                    },
                }
            },
            KeyCode::Char('d') => {
                if self.selected_workspace().is_some() {
                    self.dialog = Dialog::ConfirmDelete;
                } else {
                    self.error_no_selection(now_ms);
                }
                Action::Nothing
            },
            KeyCode::Char('g') => {
                self.dialog = Dialog::Shortcut;
                self.save_input = String::new();
                Action::Nothing
            },
            KeyCode::Char('t') => {
                self.dialog = Dialog::Settings;
                Action::Nothing
            },
            KeyCode::Char('p') => {
                self.show_preview = !self.show_preview;
                Action::Nothing
            },
            KeyCode::Backspace => {
                pop_char(&mut self.filter);
                self.selected = 0;
                self.clamp_selection();
                Action::Nothing
            },
            _ => Action::Nothing,
        }
    }

    /// Edits the text being typed in a dialog (see `edited_input`).
    fn edit_input(&mut self, key: Key)
        ensures
            model(*final(self)) == (AppModel { save_input: edited_input(old(self).save_input@, key), ..model(*old(self)) }),
    {
        match key.code {
            KeyCode::Backspace => {
                pop_char(&mut self.save_input);
            },
            KeyCode::Char(c) => {
                if !key.ctrl {
                    text::push_char(&mut self.save_input, c);
                }
            },
            _ => {},
        }
    }

    /// The name typed in a dialog, trimmed, or `None` (with an error shown) when it is empty.
    fn typed_name(&mut self, now_ms: u64) -> (r: Option<String>)
        ensures
            text::trim(old(self).save_input@).len() == 0 ==> r is None && model(*final(self)) == with_status(
                model(*old(self)),
                StatusKind::Error,
                empty_name_text(),
                now_ms,
            ),
            text::trim(old(self).save_input@).len() > 0 ==> (r matches Some(n) && n@ == text::trim(
                old(self).save_input@,
            ) && model(*final(self)) == model(*old(self))),
    {
        let name = text::trim_chars(&text::to_chars(self.save_input.as_str()));
        if name.len() == 0 {
            self.set_error("Workspace name cannot be empty".to_owned(), now_ms);
            return None;
        }
        Some(text::from_chars(&name))
    }

    /// A key press in the save dialog (see `save_key_step`).
    pub fn handle_save_key(&mut self, key: Key, now_ms: u64) -> (r: Action)
        ensures
            (model(*final(self)), act(r)) == save_key_step(model(*old(self)), key, now_ms),
    {
        match key.code {
            KeyCode::Esc => {
                self.reset_dialogs();
                Action::Nothing
            },
            KeyCode::Enter => match self.typed_name(now_ms) {
                Some(name) => Action::Save(name),
                None => Action::Nothing,
            },
            _ => {
                self.edit_input(key);
                Action::Nothing
            },
        }
    }

    /// A key press in the rename dialog (see `rename_key_step`).
    pub fn handle_rename_key(&mut self, key: Key, now_ms: u64) -> (r: Action)
        ensures
            (model(*final(self)), act(r)) == rename_key_step(model(*old(self)), key, now_ms),
    {
        match key.code {
            KeyCode::Esc => {
                self.reset_dialogs();
                Action::Nothing
            },
            KeyCode::Enter => match self.typed_name(now_ms) {
                Some(name) => match self.selected_workspace() {
                    Some(w) => Action::Rename(w.name.clone(), name),
                    None => {
                        self.reset_dialogs();
                        Action::Nothing
                    },
                },
                None => Action::Nothing,
            },
            _ => {
                self.edit_input(key);
                Action::Nothing
            },
        }
    }

    /// A key press in the Ghostty shortcut dialog (see `shortcut_key_step`).
    pub fn handle_shortcut_key(&mut self, key: Key) -> (r: Action)
        ensures
            (model(*final(self)), act(r)) == shortcut_key_step(model(*old(self)), key),
    {
        match key.code {
            KeyCode::Esc => {
                self.reset_dialogs();
                Action::Nothing
            },
            KeyCode::Enter => Action::SetShortcut(self.save_input.clone()),
            _ => {
                self.edit_input(key);
                Action::Nothing
            },
        }
    }

    /// A key press in the delete confirmation: Esc or 'n' cancels; Enter or 'y' asks to
    /// delete the selected workspace (or cancels when none is selected).
    pub fn handle_delete_key(&mut self, key: Key) -> (r: Action)
        ensures
            (model(*final(self)), act(r)) == delete_key_step(model(*old(self)), key),
    {
        match key.code {
            KeyCode::Esc | KeyCode::Char('n') => {
                self.reset_dialogs();
                Action::Nothing
            },
            KeyCode::Enter | KeyCode::Char('y') => {
                match self.selected_workspace() {
                    Some(w) => Action::Delete(w.name.clone()),
                    None => {
                        self.reset_dialogs();
                        Action::Nothing
                    },
                }
            },
            _ => Action::Nothing,
        }
    }

    /// A key press in the settings dialog: Esc or Enter closes it, 'c' or space asks to
    /// toggle `close_tab`.
    pub fn handle_settings_key(&mut self, key: Key) -> (r: Action)
        ensures
            (model(*final(self)), act(r)) == settings_key_step(model(*old(self)), key),
    {
        match key.code {
            KeyCode::Esc | KeyCode::Enter => {
                self.reset_dialogs();
                Action::Nothing
            },
            KeyCode::Char('c') | KeyCode::Char(' ') => Action::ToggleCloseTab,
            _ => Action::Nothing,
        }
    }

    /// A key press: Control-C quits; otherwise the open dialog, or the list, handles it.
    pub fn handle_key(&mut self, key: Key, now_ms: u64) -> (r: Action)
        ensures
            (model(*final(self)), act(r)) == key_step(model(*old(self)), key, now_ms),
    {
        if key.ctrl && key.code == KeyCode::Char('c') {
            return Action::Quit;
        }
        match self.dialog {
            Dialog::Save => self.handle_save_key(key, now_ms),
            Dialog::Rename => self.handle_rename_key(key, now_ms),
            Dialog::ConfirmDelete => self.handle_delete_key(key),
            Dialog::Shortcut => self.handle_shortcut_key(key),
            Dialog::Settings => self.handle_settings_key(key),
            Dialog::Closed => self.handle_main_key(key, now_ms),
        }
    }

    /// Takes back how a save request ended (see `save_finished`).
    pub fn finish_save(&mut self, name: &str, outcome: Result<(String, Vec<Workspace>), String>, now_ms: u64)
        ensures
            model(*final(self)) == save_finished(model(*old(self)), name@, outcome, now_ms),
    {
        match outcome {
            Ok((path, ws)) => {
                self.reset_dialogs();
                self.reload(ws);
                self.select_name(name);
                let mut v = text::to_chars("Saved workspace ");
                text::extend_str(&mut v, "\"");
                text::extend_str(&mut v, name);
                text::extend_str(&mut v, "\"");
                text::extend_str(&mut v, " to ");
                text::extend_str(&mut v, path.as_str());
                assert(v@ =~= "Saved workspace "@ + quoted(name@) + " to "@ + path@);
                self.set_success(text::from_chars(&v), now_ms);
            },
            Err(msg) => self.set_error(msg, now_ms),
        }
    }

    /// Takes back how editing a workspace ended (see `edit_finished`).
    pub fn finish_edit(&mut self, name: &str, outcome: Result<Vec<Workspace>, String>, now_ms: u64)
        ensures
            model(*final(self)) == edit_finished(model(*old(self)), name@, outcome, now_ms),
    {
        match outcome {
            Ok(ws) => {
                self.reload(ws);
                self.select_name(name);
                let mut v = text::to_chars("Closed editor for ");
                text::extend_str(&mut v, "\"");
                text::extend_str(&mut v, name);
                text::extend_str(&mut v, "\"");
                assert(v@ =~= "Closed editor for "@ + quoted(name@));
                self.set_success(text::from_chars(&v), now_ms);
            },
            Err(msg) => self.set_error(msg, now_ms),
        }
    }

    /// Takes back how a delete request ended (see `delete_finished`).
    pub fn finish_delete(&mut self, name: &str, outcome: Result<Vec<Workspace>, String>, now_ms: u64)
        ensures
            model(*final(self)) == delete_finished(model(*old(self)), name@, outcome, now_ms),
    {
        match outcome {
            Ok(ws) => {
                self.reset_dialogs();
                self.reload(ws);
                let mut v = text::to_chars("Removed workspace ");
                text::extend_str(&mut v, "\"");
                text::extend_str(&mut v, name);
                text::extend_str(&mut v, "\"");
                assert(v@ =~= "Removed workspace "@ + quoted(name@));
                self.set_success(text::from_chars(&v), now_ms);
            },
            Err(msg) => self.set_error(msg, now_ms),
        }
    }

    /// Takes back how a rename request ended (see `rename_finished`).
    pub fn finish_rename(&mut self, old_name: &str, new_name: &str, outcome: Result<Vec<Workspace>, String>, now_ms: u64)
        ensures
            model(*final(self)) == rename_finished(model(*old(self)), old_name@, new_name@, outcome, now_ms),
    {
        match outcome {
            Ok(ws) => {
                self.reset_dialogs();
                self.reload(ws);
                self.select_name(new_name);
                let mut v = text::to_chars("Renamed workspace ");
                text::extend_str(&mut v, "\"");
                text::extend_str(&mut v, old_name);
                text::extend_str(&mut v, "\"");
                text::extend_str(&mut v, " to ");
                text::extend_str(&mut v, "\"");
                text::extend_str(&mut v, new_name);
                text::extend_str(&mut v, "\"");
                assert(v@ =~= "Renamed workspace "@ + quoted(old_name@) + " to "@ + quoted(new_name@));
                self.set_success(text::from_chars(&v), now_ms);
            },
            Err(msg) => self.set_error(msg, now_ms),
        }
    }

    /// Takes back how setting the Ghostty shortcut ended (see `shortcut_finished`).
    pub fn finish_shortcut(&mut self, outcome: Result<String, String>, now_ms: u64)
        ensures
            model(*final(self)) == shortcut_finished(model(*old(self)), outcome, now_ms),
    {
        match outcome {
            Ok(display) => {
                self.reset_dialogs();
                let mut v = text::to_chars("ghostty_shortcut = ");
                text::extend_str(&mut v, display.as_str());
                self.set_success(text::from_chars(&v), now_ms);
            },
            Err(msg) => self.set_error(msg, now_ms),
        }
    }

    /// Takes back how toggling `close_tab` ended (see `toggle_finished`).
    pub fn finish_toggle(&mut self, outcome: Result<String, String>, now_ms: u64)
        ensures
            model(*final(self)) == toggle_finished(model(*old(self)), outcome, now_ms),
    {
        match outcome {
            Ok(display) => {
                let mut v = text::to_chars("close_tab = ");
                text::extend_str(&mut v, display.as_str());
                self.set_success(text::from_chars(&v), now_ms);
            },
            Err(msg) => self.set_error(msg, now_ms),
        }
    }

    /// A key press at `now_ms`: while the splash shows, any key only dismisses it.
    pub fn handle_event(&mut self, key: Key, now_ms: u64) -> (r: Action)
        ensures
            if splash_shown(model(*old(self)), now_ms) {
                model(*final(self)) == (AppModel { splash_visible: false, ..model(*old(self)) })
                    && act(r) == Act::Nothing
            } else {
                (model(*final(self)), act(r)) == key_step(model(*old(self)), key, now_ms)
            },
    {
        if self.is_splash_visible(now_ms) {
            self.dismiss_splash();
            return Action::Nothing;
        }
        self.handle_key(key, now_ms)
    }
}

} // verus!
