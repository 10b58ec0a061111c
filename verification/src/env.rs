//! The workspace directory and its settings: where things live, the saved workspaces, and
//! what each settings change asks to be written.
use vstd::prelude::*;

use crate::config::{self, Config};
use crate::error::GtabError;
use crate::ghostty;
use crate::script::{self, TabRow, WorkspaceTab};
use crate::splits;
use crate::text;

verus! {

/// A saved workspace.
#[derive(Debug)]
pub struct Workspace {
    pub name: String,
    pub path: String,
    pub tabs: Vec<WorkspaceTab>,
}

/// The workspace directory with its settings.
#[derive(Debug)]
pub struct AppEnv {
    pub base_dir: String,
    pub config_file: String,
    pub config: Config,
}

/// Where the Ghostty shortcut lives: Ghostty's configuration file, the managed shortcut file, and
/// the shortcut itself.
#[derive(Debug)]
pub struct GhosttyShortcutSync {
    pub config_path: String,
    pub include_path: String,
    pub shortcut: String,
}

/// The file changes that bring the Ghostty shortcut in line with the settings.
#[derive(Debug)]
pub struct ShortcutSyncPlan {
    /// Whether the shortcut is on (the shortcut file is then written before Ghostty's configuration).
    pub enabled: bool,
    /// New text for the shortcut file.
    pub write_include: Option<String>,
    /// Remove the shortcut file.
    pub remove_include: bool,
    /// New text for Ghostty's configuration file.
    pub write_config: Option<String>,
    /// Whether anything changes.
    pub changed: bool,
}

/// What `gtab set` was asked to do.
#[derive(Debug)]
pub enum SetRequest {
    /// Show the settings.
    Show,
    /// Turn `close_tab` on or off.
    CloseTab(bool),
    /// Set the Ghostty shortcut to this text.
    GhosttyShortcut(String),
}

// ---------------------------------------------------------------------------
// Specifications
// ---------------------------------------------------------------------------

/// `part` joined onto `base` as `Path::join` does for text paths: an absolute `part` replaces
/// `base`, else a '/' separates them unless `base` is empty or already ends in one.
pub open spec fn joined(base: Seq<char>, part: Seq<char>) -> Seq<char> {
    if part.len() > 0 && part[0] == '/' {
        part
    } else if base.len() == 0 {
        part
    } else if base.last() == '/' {
        base + part
    } else {
        base + seq!['/'] + part
    }
}

pub open spec fn workspace_name_check(name: Seq<char>) -> Option<GtabError> {
    let t = text::trim(name);
    if t.len() == 0 {
        Some(GtabError::MissingWorkspaceName)
    } else if t == "."@ || t == ".."@ || text::has_char(t, '/') || text::has_char(t, '\0') {
        Some(GtabError::InvalidWorkspaceName(arbitrary()))
    } else {
        None
    }
}

pub open spec fn workspace_file(base: Seq<char>, name: Seq<char>) -> Seq<char> {
    joined(base, name + ".applescript"@)
}

pub open spec fn env_view(e: AppEnv) -> (Seq<char>, Seq<char>, (bool, Seq<char>)) {
    (e.base_dir@, e.config_file@, config::config_view(e.config))
}

pub open spec fn include_path_of(base: Seq<char>) -> Seq<char> {
    joined(base, "ghostty-shortcut.conf"@)
}

pub open spec fn sync_view(s: GhosttyShortcutSync) -> (Seq<char>, Seq<char>, Seq<char>) {
    (s.config_path@, s.include_path@, s.shortcut@)
}

/// The Ghostty shortcut changes for `shortcut`: `shortcut_text` is the shortcut file's text (when it
/// can be read), `include_exists` whether it exists, `config` Ghostty's configuration text
/// (`None` when there is no such file).
pub open spec fn shortcut_plan(
    shortcut: Seq<char>,
    include_path: Seq<char>,
    shortcut_text: Option<Seq<char>>,
    include_exists: bool,
    config: Option<Seq<char>>,
) -> (bool, Option<Seq<char>>, bool, Option<Seq<char>>, bool) {
    if config::shortcut_disabled(shortcut) {
        let cfg = ghostty::next_ghostty_config(config, include_path, false);
        (false, None, include_exists, cfg, cfg is Some || include_exists)
    } else {
        let content = ghostty::shortcut_include(shortcut);
        let inc = if shortcut_text == Some(content) {
            None
        } else {
            Some(content)
        };
        let cfg = ghostty::next_ghostty_config(config, include_path, true);
        (true, inc, false, cfg, cfg is Some || inc is Some)
    }
}

pub open spec fn plan_view(p: ShortcutSyncPlan) -> (bool, Option<Seq<char>>, bool, Option<Seq<char>>, bool) {
    (p.enabled, text::opt_chars(p.write_include), p.remove_include, text::opt_chars(p.write_config), p.changed)
}

pub open spec fn opt_str(o: Option<&str>) -> Option<Seq<char>> {
    match o {
        Some(s) => Some(s@),
        None => None,
    }
}

/// The name of a workspace saved in a file: the file name without ".applescript", when it
/// has that extension (a name made only of the extension has none).
pub open spec fn workspace_name_of_file(file_name: Seq<char>) -> Option<Seq<char>> {
    let ext = ".applescript"@;
    if file_name.len() > ext.len() && file_name.skip(file_name.len() - ext.len()) == ext {
        Some(file_name.take(file_name.len() - ext.len()))
    } else {
        None
    }
}

pub open spec fn workspace_list_text(names: Seq<Seq<char>>) -> Seq<char>
    decreases names.len(),
{
    if names.len() == 0 {
        "Workspaces:"@
    } else {
        workspace_list_text(names.drop_last()) + "\n  - "@ + names.last()
    }
}

pub open spec fn workspace_names(ws: Seq<Workspace>) -> Seq<Seq<char>> {
    Seq::new(ws.len(), |i: int| ws[i].name@)
}

pub open spec fn on_off(b: bool) -> Seq<char> {
    if b {
        "on"@
    } else {
        "off"@
    }
}

pub open spec fn settings_note(shortcut: Seq<char>) -> Seq<char> {
    if config::shortcut_disabled(shortcut) {
        "Ghostty-local shortcut is disabled. Run `gtab init` to restore the default same-shell Cmd+G."@
    } else {
        "Ghostty-local shortcut is the default fast path. It types `gtab` into the focused Ghostty shell and only works when Ghostty is focused."@
    }
}

pub open spec fn settings_text(e: (Seq<char>, Seq<char>, (bool, Seq<char>)), config_path: Seq<char>) -> Seq<char> {
    "Settings:\n  close_tab = "@ + on_off(e.2.0) + "\n  ghostty_shortcut = "@ + e.2.1
        + "\n  ghostty_config = "@ + config_path + "\n  ghostty_include = "@ + include_path_of(e.0)
        + "\n  "@ + settings_note(e.2.1)
}

/// A `gtab set` request as a value.
pub enum SetRequestView {
    Show,
    CloseTab(bool),
    GhosttyShortcut(Seq<char>),
}

/// `gtab set <key> <value>`: nothing shows the settings; `close_tab` takes on, true, off or
/// false; `ghostty_shortcut` takes any text; any other key, or a key without a value, is unknown;
/// a value without a key is a usage error.
pub open spec fn set_request(key: Option<Seq<char>>, value: Option<Seq<char>>) -> Result<SetRequestView, GtabError> {
    match (key, value) {
        (None, None) => Ok(SetRequestView::Show),
        (Some(k), Some(v)) => if k == "close_tab"@ {
            if v == "on"@ || v == "true"@ {
                Ok(SetRequestView::CloseTab(true))
            } else if v == "off"@ || v == "false"@ {
                Ok(SetRequestView::CloseTab(false))
            } else {
                Err(GtabError::InvalidCloseTabValue)
            }
        } else if k == "ghostty_shortcut"@ {
            Ok(SetRequestView::GhosttyShortcut(v))
        } else {
            Err(GtabError::UnknownSetting)
        },
        (Some(_), None) => Err(GtabError::UnknownSetting),
        (None, Some(_)) => Err(GtabError::SetUsage),
    }
}

pub open spec fn request_view(r: SetRequest) -> SetRequestView {
    match r {
        SetRequest::Show => SetRequestView::Show,
        SetRequest::CloseTab(b) => SetRequestView::CloseTab(b),
        SetRequest::GhosttyShortcut(s) => SetRequestView::GhosttyShortcut(s@),
    }
}

/// The outcome of a request about workspace `name` whose file may or may not exist: refused for
/// an invalid name, then for a missing file, else the file's path.
pub open spec fn existing_workspace(base: Seq<char>, name: Seq<char>, exists: bool) -> Result<Seq<char>, GtabError> {
    match workspace_name_check(name) {
        None => if exists {
            Ok(workspace_file(base, name))
        } else {
            Err(GtabError::WorkspaceNotFound(arbitrary()))
        },
        Some(e) => Err(e),
    }
}

/// `r` is the outcome `expected` describes, the workspace name carried by the errors that
/// carry one being `name`.
pub open spec fn path_outcome(r: Result<String, GtabError>, expected: Result<Seq<char>, GtabError>, name: Seq<char>) -> bool {
    match expected {
        Ok(p) => r matches Ok(q) && q@ == p,
        Err(GtabError::MissingWorkspaceName) => r matches Err(GtabError::MissingWorkspaceName),
        Err(GtabError::InvalidWorkspaceName(_)) => r matches Err(GtabError::InvalidWorkspaceName(n)) && n@ == name,
        Err(GtabError::WorkspaceNotFound(_)) => r matches Err(GtabError::WorkspaceNotFound(n)) && n@ == name,
        Err(_) => false,
    }
}

/// The shortcut file and Ghostty's configuration after a plan was carried out: the shortcut
/// file's text and whether it exists, and the configuration's text.
pub open spec fn files_after_plan(
    plan: (bool, Option<Seq<char>>, bool, Option<Seq<char>>, bool),
    shortcut_text: Option<Seq<char>>,
    include_exists: bool,
    config: Option<Seq<char>>,
) -> (Option<Seq<char>>, bool, Option<Seq<char>>) {
    let text_after = match plan.1 {
        Some(t) => Some(t),
        None => if plan.2 {
            None
        } else {
            shortcut_text
        },
    };
    let exists_after = (include_exists || plan.1 is Some) && !plan.2;
    let config_after = match plan.3 {
        Some(t) => Some(t),
        None => config,
    };
    (text_after, exists_after, config_after)
}

// ---------------------------------------------------------------------------
// Paths
// ---------------------------------------------------------------------------

/// Joins a path component onto a directory (`Path::join` on text paths).
pub fn join_path(base: &str, part: &str) -> (r: String)
    ensures
        r@ == joined(base@, part@),
{
    let b = text::to_chars(base);
    let p = text::to_chars(part);
    if p.len() > 0 && p[0] == '/' {
        return part.to_owned();
    }
    if b.len() == 0 {
        return part.to_owned();
    }
    let mut out = b.clone();
    assert(out@ == b@);
    if b[b.len() - 1] != '/' {
        out.push('/');
    }
    text::extend(&mut out, &p);
    text::from_chars(&out)
}

/// The directory that holds workspaces and settings: `$GTAB_DIR` when set, else
/// `~/.config/gtab`. Refused when neither is known.
pub fn resolve_base_dir(gtab_dir: Option<&str>, home: Option<&str>) -> (r: Result<String, GtabError>)
    ensures
        match (gtab_dir, home) {
            (Some(d), _) => r matches Ok(p) && p@ == d@,
            (None, Some(h)) => r matches Ok(p) && p@ == joined(joined(h@, ".config"@), "gtab"@),
            (None, None) => r matches Err(GtabError::HomeDirUnavailable),
        },
{
    match gtab_dir {
        Some(d) => return Ok(d.to_owned()),
        None => {},
    }
    match home {
        Some(h) => {
            let c = join_path(h, ".config");
            Ok(join_path(c.as_str(), "gtab"))
        },
        None => Err(GtabError::HomeDirUnavailable),
    }
}

/// The two places Ghostty's configuration may be: `config.ghostty` and the older `config`,
/// in `$XDG_CONFIG_HOME/ghostty` or else `~/.config/ghostty`. Refused without a home
/// directory.
pub fn ghostty_config_candidates(home: Option<&str>, xdg_config_home: Option<&str>) -> (r: Result<
    (String, String),
    GtabError,
>)
    ensures
        match home {
            None => r matches Err(GtabError::HomeDirUnavailable),
            Some(h) => r matches Ok((a, b)) && {
                let dir = joined(
                    match xdg_config_home {
                        Some(x) => x@,
                        None => joined(h@, ".config"@),
                    },
                    "ghostty"@,
                );
                a@ == joined(dir, "config.ghostty"@) && b@ == joined(dir, "config"@)
            },
        },
{
    let h = match home {
        Some(h) => h,
        None => return Err(GtabError::HomeDirUnavailable),
    };
    let xdg = match xdg_config_home {
        Some(x) => x.to_owned(),
        None => join_path(h, ".config"),
    };
    let dir = join_path(xdg.as_str(), "ghostty");
    Ok((join_path(dir.as_str(), "config.ghostty"), join_path(dir.as_str(), "config")))
}

/// Ghostty's configuration file: `config.ghostty` when it exists, else the older `config`
/// when that exists, else `config.ghostty`.
pub fn resolve_ghostty_config_path(candidates: (String, String), config_ghostty_exists: bool, legacy_exists: bool) -> (r: String)
    ensures
        r@ == (if config_ghostty_exists || !legacy_exists {
            candidates.0@
        } else {
            candidates.1@
        }),
{
    if config_ghostty_exists {
        return candidates.0;
    }
    if legacy_exists {
        return candidates.1;
    }
    candidates.0
}

/// Where Ghostty's configuration is taken to be when it cannot be resolved:
/// `.config/ghostty/config.ghostty` under the home directory (or the current directory).
pub fn fallback_ghostty_config_path(home: Option<&str>) -> (r: String)
    ensures
        r@ == joined(
            match home {
                Some(h) => h@,
                None => "."@,
            },
            ".config/ghostty/config.ghostty"@,
        ),
{
    match home {
        Some(h) => join_path(h, ".config/ghostty/config.ghostty"),
        None => join_path(".", ".config/ghostty/config.ghostty"),
    }
}

/// The parent process id from the output of `ps -o ppid=`. Refused when the output is blank.
pub fn parent_process_id(ps_output: &str) -> (r: Result<String, GtabError>)
    ensures
        text::trim(ps_output@).len() == 0 ==> r matches Err(GtabError::ParentProcessUnavailable),
        text::trim(ps_output@).len() > 0 ==> (r matches Ok(d) && d@ == text::trim(ps_output@)),
{
    let pid = text::trim_chars(&text::to_chars(ps_output));
    if pid.len() == 0 {
        return Err(GtabError::ParentProcessUnavailable);
    }
    Ok(text::from_chars(&pid))
}

/// The editor to open workspace files with: `$EDITOR` unless unset or blank, else "vim".
pub fn choose_editor(editor: Option<&str>) -> (r: String)
    ensures
        r@ == match editor {
            Some(e) => if text::trim(e@).len() > 0 {
                e@
            } else {
                "vim"@
            },
            None => "vim"@,
        },
{
    match editor {
        Some(e) => {
            let t = text::trim_chars(&text::to_chars(e));
            if t.len() > 0 {
                e.to_owned()
            } else {
                "vim".to_owned()
            }
        },
        None => "vim".to_owned(),
    }
}

/// Checks a workspace name: refused when empty after trimming, or when it is "." or ".." or
/// holds '/' or a NUL character.
pub fn validate_workspace_name(name: &str) -> (r: Result<(), GtabError>)
    ensures
        match workspace_name_check(name@) {
            None => r is Ok,
            Some(GtabError::MissingWorkspaceName) => r matches Err(GtabError::MissingWorkspaceName),
            Some(_) => r matches Err(GtabError::InvalidWorkspaceName(n)) && n@ == name@,
        },
{
    let t = text::trim_chars(&text::to_chars(name));
    if t.len() == 0 {
        return Err(GtabError::MissingWorkspaceName);
    }
    if text::chars_eq_str(&t, ".") || text::chars_eq_str(&t, "..") || text::contains_char(&t, '/')
        || text::contains_char(&t, '\0') {
        return Err(GtabError::InvalidWorkspaceName(name.to_owned()));
    }
    Ok(())
}

/// The name of the workspace saved in a file, from the file's name: the part before
/// ".applescript", or `None` for other files.
pub fn workspace_name_from_file(file_name: &str) -> (r: Option<String>)
    ensures
        text::opt_chars(r) == workspace_name_of_file(file_name@),
{
    let f = text::to_chars(file_name);
    let ext = text::to_chars(".applescript");
    if f.len() > ext.len() && text::matches_at(&f, &ext, f.len() - ext.len()) {
        assert(f@.subrange(f.len() - ext.len(), f.len() - ext.len() + ext.len()) =~= f@.skip(f.len() - ext.len()));
        let n = text::slice(&f, 0, f.len() - ext.len());
        assert(n@ =~= f@.take(f.len() - ext.len()));
        Some(text::from_chars(&n))
    } else {
        proof {
            if f.len() > ext.len() {
                assert(f@.subrange(f.len() - ext.len(), f.len() - ext.len() + ext.len()) =~= f@.skip(f.len() - ext.len()));
            }
        }
        None
    }
}

/// A saved workspace read from its file: the tabs its script describes, or none when the
/// file could not be read.
pub fn workspace_from_file(name: &str, path: &str, content: Option<&str>, home: &str) -> (r: Workspace)
    requires
        content matches Some(c) ==> script::indices_positive(text::lines(c@)),
    ensures
        r.name@ == name@,
        r.path@ == path@,
        script::tabs_view(r.tabs@) == match content {
            Some(c) => script::workspace_tabs(c@, home@),
            None => Seq::empty(),
        },
{
    let tabs = match content {
        Some(c) => script::parse_workspace_tabs(c, home),
        None => {
            let v: Vec<WorkspaceTab> = Vec::new();
            assert(script::tabs_view(v@) =~= Seq::empty());
            v
        },
    };
    Workspace { name: name.to_owned(), path: path.to_owned(), tabs }
}

/// The workspace list as the `list` command prints it.
pub fn format_workspace_list(workspaces: &Vec<Workspace>) -> (r: String)
    ensures
        r@ == if workspaces.len() == 0 {
            "No workspaces saved."@
        } else {
            workspace_list_text(workspace_names(workspaces@))
        },
{
    if workspaces.len() == 0 {
        return "No workspaces saved.".to_owned();
    }
    let ghost names = workspace_names(workspaces@);
    let mut out = text::to_chars("Workspaces:");
    assert(names.take(0) =~= Seq::<Seq<char>>::empty());
    for i in 0..workspaces.len()
        invariant
            names == workspace_names(workspaces@),
            out@ == workspace_list_text(names.take(i as int)),
    {
        text::extend_str(&mut out, "\n  - ");
        text::extend_str(&mut out, workspaces[i].name.as_str());
        assert(names.take(i + 1).drop_last() =~= names.take(i as int));
    }
    assert(names.take(workspaces.len() as int) =~= names);
    text::from_chars(&out)
}

/// Whether the launcher should switch to an ASCII-capable input source: not when the current
/// source is that source, nor when both identifiers are known and equal.
pub fn should_switch_to_ascii_input_source(current_id: Option<&str>, ascii_id: Option<&str>, same_source: bool) -> (r: bool)
    ensures
        r == (!same_source && match (current_id, ascii_id) {
            (Some(c), Some(a)) => c@ != a@,
            _ => true,
        }),
{
    if same_source {
        return false;
    }
    match (current_id, ascii_id) {
        (Some(c), Some(a)) => !text::chars_eq(&text::to_chars(c), &text::to_chars(a)),
        _ => true,
    }
}

/// A macOS status check: success for status 0, else "<context>: OSStatus <status>".
pub fn check_status(status: i32, context: &str) -> (r: Result<(), String>)
    ensures
        status == 0 ==> r is Ok,
        status != 0 ==> (r matches Err(m) && m@ == context@ + ": OSStatus "@ + (if status < 0 {
            seq!['-']
        } else {
            seq![]
        }) + text::decimal(if status < 0 {
            (-status) as nat
        } else {
            status as nat
        })),
{
    if status == 0 {
        return Ok(());
    }
    let mut v = text::to_chars(context);
    text::extend_str(&mut v, ": OSStatus ");
    let magnitude: usize = if status < 0 {
        v.push('-');
        let m: i64 = -(status as i64);
        m as usize
    } else {
        status as usize
    };
    text::extend(&mut v, &text::decimal_chars(magnitude));
    Err(text::from_chars(&v))
}

/// Making sure of the shortcut twice in a row changes nothing the second time: once the first
/// plan is carried out, the second one writes, creates and removes nothing (for a Ghostty
/// configuration whose lines keep their form, and a shortcut file path that a reference line
/// names faithfully when the shortcut is on).
pub proof fn law_ensure_is_idempotent(
    shortcut: Seq<char>,
    include_path: Seq<char>,
    shortcut_text: Option<Seq<char>>,
    include_exists: bool,
    config: Option<Seq<char>>,
)
    requires
        config matches Some(c) ==> ghostty::plain_text(c),
        !config::shortcut_disabled(shortcut) ==> ghostty::referable_path(include_path),
    ensures
        ({
            let first = shortcut_plan(shortcut, include_path, shortcut_text, include_exists, config);
            let after = files_after_plan(first, shortcut_text, include_exists, config);
            let second = shortcut_plan(shortcut, include_path, after.0, after.1, after.2);
            &&& second.1 is None
            &&& !second.2
            &&& second.3 is None
            &&& !second.4
        }),
{
    let enabled = !config::shortcut_disabled(shortcut);
    ghostty::law_sync_is_idempotent(config, include_path, enabled);
}

/// `gtab set close_tab <value>` takes exactly "on" and "true" (turning it on) and "off" and
/// "false" (turning it off), refusing every other value; and the value it takes reads back
/// from the settings file line "close_tab=<value>" as the same setting.
pub proof fn law_close_tab_values(value: Seq<char>, c: (bool, Seq<char>))
    ensures
        set_request(Some("close_tab"@), Some(value)) is Ok <==> (value == "on"@ || value == "true"@ || value
            == "off"@ || value == "false"@),
        value == "on"@ || value == "true"@ ==> set_request(Some("close_tab"@), Some(value)) == Ok::<
            SetRequestView,
            GtabError,
        >(SetRequestView::CloseTab(true)),
        value == "off"@ || value == "false"@ ==> set_request(Some("close_tab"@), Some(value)) == Ok::<
            SetRequestView,
            GtabError,
        >(SetRequestView::CloseTab(false)),
        set_request(Some("close_tab"@), Some(value)) matches Ok(SetRequestView::CloseTab(b)) ==> config::config_line_step(
            c,
            "close_tab="@ + value,
        ) == Ok::<(bool, Seq<char>), GtabError>((b, c.1)),
{
    reveal_strlit("on");
    reveal_strlit("off");
    reveal_strlit("true");
    reveal_strlit("false");
    reveal_strlit("close_tab=");
    reveal_strlit("close_tab");
    if value == "on"@ || value == "true"@ || value == "off"@ || value == "false"@ {
        let l = "close_tab="@ + value;
        assert forall|j: int| 0 <= j < 9 implies l[j] != '=' by {}
        assert(l[9] == '=');
        text::lemma_first_index_at(l, '=', 9);
        assert(l.take(9) =~= "close_tab"@);
        assert(l.skip(10) =~= value);
        text::lemma_trim_fixed("close_tab"@);
        text::lemma_trim_fixed(value);
    }
}

/// The workspace names accepted are exactly those whose trimmed text is not empty, is neither
/// "." nor "..", and holds no '/' and no NUL; an accepted name's file is
/// `<base>/<name>.applescript`.
pub proof fn law_accepted_names(base: Seq<char>, name: Seq<char>)
    ensures
        workspace_name_check(name) is None <==> ({
            let t = text::trim(name);
            &&& t.len() > 0
            &&& t != "."@
            &&& t != ".."@
            &&& !text::has_char(t, '/')
            &&& !text::has_char(t, '\0')
        }),
        workspace_name_check(name) is None ==> workspace_file(base, name) == joined(base, name + ".applescript"@),
{
}

/// Reads the arguments of `gtab set` (see `set_request`).
pub fn parse_set_request(key: Option<&str>, value: Option<&str>) -> (r: Result<SetRequest, GtabError>)
    ensures
        match set_request(opt_str(key), opt_str(value)) {
            Ok(v) => r matches Ok(q) && request_view(q) == v,
            Err(GtabError::InvalidCloseTabValue) => r matches Err(GtabError::InvalidCloseTabValue),
            Err(GtabError::UnknownSetting) => r matches Err(GtabError::UnknownSetting),
            Err(GtabError::SetUsage) => r matches Err(GtabError::SetUsage),
            Err(_) => false,
        },
{
    match (key, value) {
        (None, None) => Ok(SetRequest::Show),
        (Some(k), Some(v)) => {
            let kc = text::to_chars(k);
            if text::chars_eq_str(&kc, "close_tab") {
                let vc = text::to_chars(v);
                if text::chars_eq_str(&vc, "on") || text::chars_eq_str(&vc, "true") {
                    Ok(SetRequest::CloseTab(true))
                } else if text::chars_eq_str(&vc, "off") || text::chars_eq_str(&vc, "false") {
                    Ok(SetRequest::CloseTab(false))
                } else {
                    Err(GtabError::InvalidCloseTabValue)
                }
            } else if text::chars_eq_str(&kc, "ghostty_shortcut") {
                Ok(SetRequest::GhosttyShortcut(v.to_owned()))
            } else {
                Err(GtabError::UnknownSetting)
            }
        },
        (Some(_), None) => Err(GtabError::UnknownSetting),
        (None, Some(_)) => Err(GtabError::SetUsage),
    }
}

// ---------------------------------------------------------------------------
// Settings
// ---------------------------------------------------------------------------

impl AppEnv {
    /// The environment for a workspace directory: its settings file is `<base_dir>/config`,
    /// read from `raw_config` (`None` when the file does not exist).
    pub fn load(base_dir: &str, raw_config: Option<&str>) -> (r: Result<AppEnv, GtabError>)
        ensures
            match r {
                Ok(e) => e.base_dir@ == base_dir@ && e.config_file@ == joined(base_dir@, "config"@)
                    && config::config_from_file(opt_str(raw_config)) == Ok::<(bool, Seq<char>), GtabError>(
                    config::config_view(e.config),
                ),
                Err(err) => config::config_from_file(opt_str(raw_config)) == Err::<(bool, Seq<char>), GtabError>(err),
            },
    {
        let config = match Config::load(raw_config) {
            Ok(c) => c,
            Err(e) => return Err(e),
        };
        Ok(AppEnv { base_dir: base_dir.to_owned(), config_file: join_path(base_dir, "config"), config })
    }

    /// Rereads the settings from the settings file's text (`None` when it does not exist);
    /// on a refusal the settings stay as they were.
    pub fn reload_config(&mut self, raw_config: Option<&str>) -> (r: Result<(), GtabError>)
        ensures
            final(self).base_dir@ == old(self).base_dir@,
            final(self).config_file@ == old(self).config_file@,
            match r {
                Ok(()) => config::config_from_file(opt_str(raw_config)) == Ok::<(bool, Seq<char>), GtabError>(
                    config::config_view(final(self).config),
                ),
                Err(err) => config::config_from_file(opt_str(raw_config)) == Err::<(bool, Seq<char>), GtabError>(err)
                    && config::config_view(final(self).config) == config::config_view(old(self).config),
            },
    {
        match Config::load(raw_config) {
            Ok(c) => {
                self.config = c;
                Ok(())
            },
            Err(e) => Err(e),
        }
    }

    /// Turns `close_tab` on or off; returns the settings file's new text.
    pub fn set_close_tab(&mut self, enabled: bool) -> (r: String)
        ensures
            final(self).base_dir@ == old(self).base_dir@,
            final(self).config_file@ == old(self).config_file@,
            config::config_view(final(self).config) == (enabled, old(self).config.ghostty_shortcut@),
            r@ == config::serialized_config(config::config_view(final(self).config)),
    {
        self.config.close_tab = enabled;
        self.config.serialize()
    }

    /// Sets the Ghostty shortcut, normalized; returns the settings file's new text. A refused
    /// shortcut leaves the settings as they were.
    pub fn set_ghostty_shortcut(&mut self, shortcut: &str) -> (r: Result<String, GtabError>)
        ensures
            final(self).base_dir@ == old(self).base_dir@,
            final(self).config_file@ == old(self).config_file@,
            match r {
                Ok(text) => config::normalized_shortcut(shortcut@) == Ok::<Seq<char>, GtabError>(final(self).config.ghostty_shortcut@)
                    && final(self).config.close_tab == old(self).config.close_tab
                    && text@ == config::serialized_config(config::config_view(final(self).config)),
                Err(e) => config::normalized_shortcut(shortcut@) == Err::<Seq<char>, GtabError>(e)
                    && config::config_view(final(self).config) == config::config_view(old(self).config),
            },
    {
        match config::normalize_ghostty_shortcut(shortcut) {
            Ok(n) => {
                self.config.ghostty_shortcut = n;
                Ok(self.config.serialize())
            },
            Err(e) => Err(e),
        }
    }

    /// Restores the default shortcut "cmd+g"; returns the settings file's new text.
    pub fn init_shortcuts(&mut self) -> (r: String)
        ensures
            final(self).base_dir@ == old(self).base_dir@,
            final(self).config_file@ == old(self).config_file@,
            config::config_view(final(self).config) == (old(self).config.close_tab, "cmd+g"@),
            r@ == config::serialized_config(config::config_view(final(self).config)),
    {
        self.config.ghostty_shortcut = "cmd+g".to_owned();
        self.config.serialize()
    }

    /// Where a workspace is saved: `<base_dir>/<name>.applescript`, for a valid name.
    pub fn workspace_path(&self, name: &str) -> (r: Result<String, GtabError>)
        ensures
            match workspace_name_check(name@) {
                None => r matches Ok(p) && p@ == workspace_file(self.base_dir@, name@),
                Some(GtabError::MissingWorkspaceName) => r matches Err(GtabError::MissingWorkspaceName),
                Some(_) => r matches Err(GtabError::InvalidWorkspaceName(n)) && n@ == name@,
            },
    {
        match validate_workspace_name(name) {
            Ok(()) => {},
            Err(e) => return Err(e),
        }
        let mut file = text::to_chars(name);
        text::extend_str(&mut file, ".applescript");
        let f = text::from_chars(&file);
        Ok(join_path(self.base_dir.as_str(), f.as_str()))
    }

    /// What saving the front window as workspace `name` writes: the file's path and the
    /// script for the captured tabs, laying out again the captured split panes (see
    /// `splits::layout_lines`). Refused for an invalid name or when no tab was captured.
    pub fn save_current_window(&self, name: &str, rows: &Vec<TabRow>, panes: &Vec<splits::PaneRow>) -> (r: Result<
        (String, String),
        GtabError,
    >)
        ensures
            match workspace_name_check(name@) {
                None => if rows.len() == 0 {
                    r matches Err(GtabError::NoGhosttyTabs)
                } else {
                    r matches Ok((p, s)) && p@ == workspace_file(self.base_dir@, name@) && s@
                        == script::workspace_script_with(
                        script::rows_view(rows@),
                        splits::layout_lines(panes@, rows@.len()),
                    )
                },
                Some(GtabError::MissingWorkspaceName) => r matches Err(GtabError::MissingWorkspaceName),
                Some(_) => r matches Err(GtabError::InvalidWorkspaceName(n)) && n@ == name@,
            },
    {
        let path = match self.workspace_path(name) {
            Ok(p) => p,
            Err(e) => return Err(e),
        };
        if rows.len() == 0 {
            return Err(GtabError::NoGhosttyTabs);
        }
        Ok((path, splits::build_workspace_script_with_panes(rows, panes)))
    }

    /// What removing workspace `name` deletes: its file, when the name is valid and the file
    /// exists (`exists`).
    pub fn remove_workspace(&self, name: &str, exists: bool) -> (r: Result<String, GtabError>)
        ensures
            path_outcome(r, existing_workspace(self.base_dir@, name@, exists), name@),
    {
        let path = match self.workspace_path(name) {
            Ok(p) => p,
            Err(e) => return Err(e),
        };
        if !exists {
            return Err(GtabError::WorkspaceNotFound(name.to_owned()));
        }
        Ok(path)
    }

    /// What renaming workspace `old_name` to `new_name` moves: the old file and the new one.
    /// Refused when either name is invalid (the old one checked first), when the old file does
    /// not exist (`old_exists`), or when the new one already does (`new_exists`).
    pub fn rename_workspace(&self, old_name: &str, new_name: &str, old_exists: bool, new_exists: bool) -> (r: Result<
        (String, String),
        GtabError,
    >)
        ensures
            match (workspace_name_check(old_name@), workspace_name_check(new_name@)) {
                (Some(GtabError::MissingWorkspaceName), _) => r matches Err(GtabError::MissingWorkspaceName),
                (Some(_), _) => r matches Err(GtabError::InvalidWorkspaceName(n)) && n@ == old_name@,
                (None, Some(GtabError::MissingWorkspaceName)) => r matches Err(GtabError::MissingWorkspaceName),
                (None, Some(_)) => r matches Err(GtabError::InvalidWorkspaceName(n)) && n@ == new_name@,
                (None, None) => if !old_exists {
                    r matches Err(GtabError::WorkspaceNotFound(n)) && n@ == old_name@
                } else if new_exists {
                    r matches Err(GtabError::WorkspaceExists(n)) && n@ == new_name@
                } else {
                    r matches Ok((a, b)) && a@ == workspace_file(self.base_dir@, old_name@) && b@
                        == workspace_file(self.base_dir@, new_name@)
                },
            },
    {
        let from = match self.workspace_path(old_name) {
            Ok(p) => p,
            Err(e) => return Err(e),
        };
        let to = match self.workspace_path(new_name) {
            Ok(p) => p,
            Err(e) => return Err(e),
        };
        if !old_exists {
            return Err(GtabError::WorkspaceNotFound(old_name.to_owned()));
        }
        if new_exists {
            return Err(GtabError::WorkspaceExists(new_name.to_owned()));
        }
        Ok((from, to))
    }

    /// What launching workspace `name` runs: its script, when the name is valid and the file
    /// exists (`exists`); and whether the tab that asked is then closed (`close_tab`).
    pub fn launch_workspace(&self, name: &str, exists: bool) -> (r: (Result<String, GtabError>, bool))
        ensures
            path_outcome(r.0, existing_workspace(self.base_dir@, name@, exists), name@),
            r.1 == self.config.close_tab,
    {
        (self.remove_workspace(name, exists), self.config.close_tab)
    }

    /// What editing workspace `name` opens: the editor (`$EDITOR` unless unset or blank, else
    /// "vim") and the workspace's file, for a valid name.
    pub fn open_in_editor(&self, name: &str, editor: Option<&str>) -> (r: Result<(String, String), GtabError>)
        ensures
            match workspace_name_check(name@) {
                None => r matches Ok((e, p)) && p@ == workspace_file(self.base_dir@, name@) && e@ == (match editor {
                    Some(e) => if text::trim(e@).len() > 0 {
                        e@
                    } else {
                        "vim"@
                    },
                    None => "vim"@,
                }),
                Some(GtabError::MissingWorkspaceName) => r matches Err(GtabError::MissingWorkspaceName),
                Some(_) => r matches Err(GtabError::InvalidWorkspaceName(n)) && n@ == name@,
            },
    {
        let path = match self.workspace_path(name) {
            Ok(p) => p,
            Err(e) => return Err(e),
        };
        Ok((choose_editor(editor), path))
    }

    /// Where the retired hotkey agent's launchd file was kept. Refused without a home directory.
    pub fn legacy_hotkey_plist_path(&self, home: Option<&str>) -> (r: Result<String, GtabError>)
        ensures
            match home {
                None => r matches Err(GtabError::HomeDirUnavailable),
                Some(h) => r matches Ok(p) && p@ == joined(
                    joined(h@, "Library/LaunchAgents"@),
                    "com.franvy.gtab.hotkey.plist"@,
                ),
            },
    {
        match home {
            None => Err(GtabError::HomeDirUnavailable),
            Some(h) => {
                let d = join_path(h, "Library/LaunchAgents");
                Ok(join_path(d.as_str(), "com.franvy.gtab.hotkey.plist"))
            },
        }
    }

    /// The launchd domain of the current user, from the output of `id -u`: "gui/<uid>".
    /// Refused when the output is blank.
    pub fn launchctl_domain(&self, id_output: &str) -> (r: Result<String, GtabError>)
        ensures
            text::trim(id_output@).len() == 0 ==> r matches Err(GtabError::UserIdUnavailable),
            text::trim(id_output@).len() > 0 ==> (r matches Ok(d) && d@ == "gui/"@ + text::trim(
                id_output@,
            )),
    {
        let uid = text::trim_chars(&text::to_chars(id_output));
        if uid.len() == 0 {
            return Err(GtabError::UserIdUnavailable);
        }
        let mut v = text::to_chars("gui/");
        text::extend(&mut v, &uid);
        Ok(text::from_chars(&v))
    }

    /// "on" or "off" for `close_tab`.
    pub fn close_tab_display(&self) -> (r: &'static str)
        ensures
            r@ == on_off(self.config.close_tab),
    {
        if self.config.close_tab {
            "on"
        } else {
            "off"
        }
    }

    /// The Ghostty shortcut as stored.
    pub fn ghostty_shortcut_display(&self) -> (r: &str)
        ensures
            r@ == self.config.ghostty_shortcut@,
    {
        self.config.ghostty_shortcut.as_str()
    }

    /// Where the Ghostty shortcut lives: Ghostty's configuration file (resolved by the
    /// caller), the shortcut file `<base_dir>/ghostty-shortcut.conf`, and the current shortcut.
    pub fn preview_ghostty_shortcut_sync(&self, config_path: &str) -> (r: GhosttyShortcutSync)
        ensures
            sync_view(r) == (config_path@, include_path_of(self.base_dir@), self.config.ghostty_shortcut@),
    {
        GhosttyShortcutSync {
            config_path: config_path.to_owned(),
            include_path: join_path(self.base_dir.as_str(), "ghostty-shortcut.conf"),
            shortcut: self.config.ghostty_shortcut.clone(),
        }
    }

    /// The file changes for the shortcut in the settings. When it is off: drop the reference
    /// from Ghostty's configuration, and remove the shortcut file if it exists. When on: write the
    /// shortcut file unless it already holds the right text, and add the reference. `shortcut_text` is the
    /// shortcut file's text when it can be read, `config` Ghostty's configuration text (`None` when
    /// there is no such file).
    pub fn sync_ghostty_shortcut_files(
        &self,
        sync: &GhosttyShortcutSync,
        shortcut_text: Option<&str>,
        include_exists: bool,
        config: Option<&str>,
    ) -> (r: ShortcutSyncPlan)
        ensures
            plan_view(r) == shortcut_plan(
                self.config.ghostty_shortcut@,
                sync.include_path@,
                opt_str(shortcut_text),
                include_exists,
                opt_str(config),
            ),
    {
        if config::is_shortcut_disabled(self.config.ghostty_shortcut.as_str()) {
            let cfg = ghostty::sync_ghostty_include_reference(config, sync.include_path.as_str(), false);
            let changed = cfg.is_some() || include_exists;
            return ShortcutSyncPlan {
                enabled: false,
                write_include: None,
                remove_include: include_exists,
                write_config: cfg,
                changed,
            };
        }
        let content = ghostty::build_ghostty_shortcut_include(self.config.ghostty_shortcut.as_str());
        let same = match shortcut_text {
            Some(i) => text::chars_eq(&text::to_chars(i), &text::to_chars(content.as_str())),
            None => false,
        };
        let inc = if same {
            None
        } else {
            Some(content)
        };
        let cfg = ghostty::sync_ghostty_include_reference(config, sync.include_path.as_str(), true);
        let changed = cfg.is_some() || inc.is_some();
        ShortcutSyncPlan { enabled: true, write_include: inc, remove_include: false, write_config: cfg, changed }
    }

    /// Where the shortcut lives and the file changes for it (see
    /// `sync_ghostty_shortcut_files`).
    pub fn sync_ghostty_shortcut(
        &self,
        config_path: &str,
        shortcut_text: Option<&str>,
        include_exists: bool,
        config: Option<&str>,
    ) -> (r: (GhosttyShortcutSync, ShortcutSyncPlan))
        ensures
            sync_view(r.0) == (config_path@, include_path_of(self.base_dir@), self.config.ghostty_shortcut@),
            plan_view(r.1) == shortcut_plan(
                self.config.ghostty_shortcut@,
                include_path_of(self.base_dir@),
                opt_str(shortcut_text),
                include_exists,
                opt_str(config),
            ),
    {
        let sync = self.preview_ghostty_shortcut_sync(config_path);
        let plan = self.sync_ghostty_shortcut_files(&sync, shortcut_text, include_exists, config);
        (sync, plan)
    }

    /// The file changes that make sure the shortcut in the settings is in place.
    pub fn ensure_ghostty_shortcut(
        &self,
        config_path: &str,
        shortcut_text: Option<&str>,
        include_exists: bool,
        config: Option<&str>,
    ) -> (r: ShortcutSyncPlan)
        ensures
            plan_view(r) == shortcut_plan(
                self.config.ghostty_shortcut@,
                include_path_of(self.base_dir@),
                opt_str(shortcut_text),
                include_exists,
                opt_str(config),
            ),
    {
        let sync = self.preview_ghostty_shortcut_sync(config_path);
        self.sync_ghostty_shortcut_files(&sync, shortcut_text, include_exists, config)
    }
}

/// The settings as the `set` command shows them, with Ghostty's configuration at
/// `config_path`.
pub fn format_settings(env: &AppEnv, config_path: &str) -> (r: String)
    ensures
        r@ == settings_text(env_view(*env), config_path@),
{
    let sync = env.preview_ghostty_shortcut_sync(config_path);
    let mut v = text::to_chars("Settings:\n  close_tab = ");
    text::extend_str(&mut v, env.close_tab_display());
    text::extend_str(&mut v, "\n  ghostty_shortcut = ");
    text::extend_str(&mut v, env.config.ghostty_shortcut.as_str());
    text::extend_str(&mut v, "\n  ghostty_config = ");
    text::extend_str(&mut v, sync.config_path.as_str());
    text::extend_str(&mut v, "\n  ghostty_include = ");
    text::extend_str(&mut v, sync.include_path.as_str());
    text::extend_str(&mut v, "\n  ");
    if config::is_shortcut_disabled(env.config.ghostty_shortcut.as_str()) {
        text::extend_str(
            &mut v,
            "Ghostty-local shortcut is disabled. Run `gtab init` to restore the default same-shell Cmd+G.",
        );
    } else {
        text::extend_str(
            &mut v,
            "Ghostty-local shortcut is the default fast path. It types `gtab` into the focused Ghostty shell and only works when Ghostty is focused.",
        );
    }
    text::from_chars(&v)
}

} // verus!
