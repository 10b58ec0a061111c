//! The errors the library reports, with the messages the command line shows.
use vstd::prelude::*;

use crate::text;

verus! {

/// A refused request.
#[derive(Debug)]
pub enum GtabError {
    /// A workspace name that is empty after trimming.
    MissingWorkspaceName,
    /// A workspace name that is ".", ".." or holds '/' or NUL.
    InvalidWorkspaceName(String),
    /// A Ghostty shortcut that is empty after trimming.
    EmptyGhosttyShortcut,
    /// A Ghostty shortcut holding '=', a newline or a carriage return.
    InvalidGhosttyShortcut,
    /// No home directory is known.
    HomeDirUnavailable,
    /// The front Ghostty window listed no tabs.
    NoGhosttyTabs,
    /// No saved workspace has this name.
    WorkspaceNotFound(String),
    /// A saved workspace already has this name.
    WorkspaceExists(String),
    /// The current user's id could not be read.
    UserIdUnavailable,
    /// The parent process could not be found.
    ParentProcessUnavailable,
    /// `close_tab` set to something other than on, off, true or false.
    InvalidCloseTabValue,
    /// A setting that does not exist, or one given without a value.
    UnknownSetting,
    /// A value given without a setting.
    SetUsage,
}

/// The text shown for an error.
pub open spec fn error_message(e: GtabError) -> Seq<char> {
    match e {
        GtabError::MissingWorkspaceName => "missing workspace name"@,
        GtabError::InvalidWorkspaceName(name) => "invalid workspace name '"@ + name@ + "'"@,
        GtabError::EmptyGhosttyShortcut => "ghostty_shortcut cannot be empty"@,
        GtabError::InvalidGhosttyShortcut => "ghostty_shortcut contains invalid characters"@,
        GtabError::HomeDirUnavailable => "failed to resolve home directory"@,
        GtabError::NoGhosttyTabs => "could not read Ghostty tabs (make sure Ghostty is the frontmost app)"@,
        GtabError::WorkspaceNotFound(name) => "workspace '"@ + name@ + "' not found"@,
        GtabError::WorkspaceExists(name) => "workspace '"@ + name@ + "' already exists"@,
        GtabError::UserIdUnavailable => "failed to resolve current user id"@,
        GtabError::ParentProcessUnavailable => "failed to resolve parent process"@,
        GtabError::InvalidCloseTabValue => "close_tab value must be 'on' or 'off'"@,
        GtabError::UnknownSetting => "unknown setting"@,
        GtabError::SetUsage => "usage: gtab set <key> <value>"@,
    }
}

impl GtabError {
    /// The text shown for this error.
    pub fn message(&self) -> (r: String)
        ensures
            r@ == error_message(*self),
    {
        match self {
            GtabError::MissingWorkspaceName => "missing workspace name".to_owned(),
            GtabError::InvalidWorkspaceName(name) => {
                let mut v = text::to_chars("invalid workspace name '");
                text::extend_str(&mut v, name.as_str());
                text::extend_str(&mut v, "'");
                text::from_chars(&v)
            },
            GtabError::EmptyGhosttyShortcut => "ghostty_shortcut cannot be empty".to_owned(),
            GtabError::InvalidGhosttyShortcut => "ghostty_shortcut contains invalid characters".to_owned(),
            GtabError::HomeDirUnavailable => "failed to resolve home directory".to_owned(),
            GtabError::NoGhosttyTabs => "could not read Ghostty tabs (make sure Ghostty is the frontmost app)".to_owned(),
            GtabError::WorkspaceNotFound(name) => {
                let mut v = text::to_chars("workspace '");
                text::extend_str(&mut v, name.as_str());
                text::extend_str(&mut v, "' not found");
                text::from_chars(&v)
            },
            GtabError::WorkspaceExists(name) => {
                let mut v = text::to_chars("workspace '");
                text::extend_str(&mut v, name.as_str());
                text::extend_str(&mut v, "' already exists");
                text::from_chars(&v)
            },
            GtabError::UserIdUnavailable => "failed to resolve current user id".to_owned(),
            GtabError::ParentProcessUnavailable => "failed to resolve parent process".to_owned(),
            GtabError::InvalidCloseTabValue => "close_tab value must be 'on' or 'off'".to_owned(),
            GtabError::UnknownSetting => "unknown setting".to_owned(),
            GtabError::SetUsage => "usage: gtab set <key> <value>".to_owned(),
        }
    }
}

} // verus!
