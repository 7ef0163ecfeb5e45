//! The session data model: panes, windows, the per-directory session
//! identity, and the library's error type.

use vstd::prelude::*;

verus! {

/// A single terminal view inside a window.
#[derive(Debug, Clone, PartialEq, Eq)]
pub struct Pane {
    pub index: u32,
    pub title: String,
    pub current_path: String,
    pub active: bool,
    pub current_command: String,
    pub pid: u32,
}

/// Mathematical image of a [`Pane`].
pub struct PaneView {
    pub index: u32,
    pub title: Seq<char>,
    pub current_path: Seq<char>,
    pub active: bool,
    pub current_command: Seq<char>,
    pub pid: u32,
}

impl View for Pane {
    type V = PaneView;

    open spec fn view(&self) -> PaneView {
        PaneView {
            index: self.index,
            title: self.title@,
            current_path: self.current_path@,
            active: self.active,
            current_command: self.current_command@,
            pid: self.pid,
        }
    }
}

/// A tab-like container of panes within a session.
#[derive(Debug, Clone, PartialEq, Eq)]
pub struct Window {
    pub session_name: String,
    pub index: u32,
    pub name: String,
    pub active: bool,
    pub layout: String,
    pub panes: Vec<Pane>,
}

/// Mathematical image of a [`Window`].
pub struct WindowView {
    pub session_name: Seq<char>,
    pub index: u32,
    pub name: Seq<char>,
    pub active: bool,
    pub layout: Seq<char>,
    pub panes: Seq<PaneView>,
}

impl View for Window {
    type V = WindowView;

    open spec fn view(&self) -> WindowView {
        WindowView {
            session_name: self.session_name@,
            index: self.index,
            name: self.name@,
            active: self.active,
            layout: self.layout@,
            panes: self.panes@.map_values(|p: Pane| p@),
        }
    }
}

/// The views of a vector of windows.
pub open spec fn window_views(ws: Seq<Window>) -> Seq<WindowView> {
    ws.map_values(|w: Window| w@)
}

/// What can go wrong inside the library's own logic.  Failures of the
/// multiplexer, of the filesystem or of the environment are reported by the
/// unverified shell around the library, not here.
#[derive(Debug, Clone, PartialEq, Eq)]
pub enum SessionError {
    /// A save-file or listing record is missing required fields; carries the
    /// offending line.
    MalformedRecord(String),
    /// A parse produced no windows at all.
    EmptySession,
    /// A field holds the separator character and cannot be persisted.
    UnserializableField,
    /// The directory's basename is empty or holds a multiplexer target
    /// separator.
    InvalidSessionName,
}

/// Mathematical image of a [`SessionError`].
pub enum SessionErrorView {
    MalformedRecord(Seq<char>),
    EmptySession,
    UnserializableField,
    InvalidSessionName,
}

impl View for SessionError {
    type V = SessionErrorView;

    open spec fn view(&self) -> SessionErrorView {
        match self {
            SessionError::MalformedRecord(l) => SessionErrorView::MalformedRecord(l@),
            SessionError::EmptySession => SessionErrorView::EmptySession,
            SessionError::UnserializableField => SessionErrorView::UnserializableField,
            SessionError::InvalidSessionName => SessionErrorView::InvalidSessionName,
        }
    }
}

/// Identity of the session bound to a working directory: the canonical
/// directory, the save-file path derived from it, and the session name.
#[derive(Debug, Clone, PartialEq, Eq)]
pub struct SessionIdentity {
    pub canonical_dir: String,
    pub save_path: String,
    pub session_name: String,
}

/// Mathematical image of a [`SessionIdentity`].
pub struct SessionIdentityView {
    pub canonical_dir: Seq<char>,
    pub save_path: Seq<char>,
    pub session_name: Seq<char>,
}

impl View for SessionIdentity {
    type V = SessionIdentityView;

    open spec fn view(&self) -> SessionIdentityView {
        SessionIdentityView {
            canonical_dir: self.canonical_dir@,
            save_path: self.save_path@,
            session_name: self.session_name@,
        }
    }
}

/// Options for creating a fresh multiplexer session.
#[derive(Debug, Clone, PartialEq, Eq)]
pub struct NewSessionOpts {
    pub detached: bool,
    pub path: Option<String>,
}

/// Mathematical image of [`NewSessionOpts`].
pub struct NewSessionOptsView {
    pub detached: bool,
    pub path: Option<Seq<char>>,
}

impl View for NewSessionOpts {
    type V = NewSessionOptsView;

    open spec fn view(&self) -> NewSessionOptsView {
        NewSessionOptsView {
            detached: self.detached,
            path: match &self.path {
                Some(p) => Some(p@),
                None => None,
            },
        }
    }
}

impl Default for NewSessionOpts {
    /// An attached session creation with no starting directory.
    fn default() -> (r: Self)
        ensures
            !r.detached,
            r.path is None,
    {
        NewSessionOpts { detached: false, path: None }
    }
}

} // verus!
