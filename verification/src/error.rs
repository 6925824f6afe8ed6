//! What can go wrong.
use vstd::prelude::*;

use crate::text::{cat, cat3};

verus! {

#[derive(Debug)]
pub enum Error {
    BaseNotFound(String),
    BaseAlreadyExists(String),
    WorkspaceAlreadyExists(String),
    WorkspaceNotFound(String),
    InvalidWorkspaceName(String),
    NotAGitRepo(String),
    PathNotFound(String),
    Git(String),
    Config(String),
    Io(String),
    TomlSerialize(String),
    TomlDeserialize(String),
}

/// What an [`Error`] stands for.
pub enum ErrorView {
    BaseNotFound(Seq<char>),
    BaseAlreadyExists(Seq<char>),
    WorkspaceAlreadyExists(Seq<char>),
    WorkspaceNotFound(Seq<char>),
    InvalidWorkspaceName(Seq<char>),
    NotAGitRepo(Seq<char>),
    PathNotFound(Seq<char>),
    Git(Seq<char>),
    Config(Seq<char>),
    Io(Seq<char>),
    TomlSerialize(Seq<char>),
    TomlDeserialize(Seq<char>),
}

impl View for Error {
    type V = ErrorView;

    open spec fn view(&self) -> ErrorView {
        match self {
            Error::BaseNotFound(s) => ErrorView::BaseNotFound(s@),
            Error::BaseAlreadyExists(s) => ErrorView::BaseAlreadyExists(s@),
            Error::WorkspaceAlreadyExists(s) => ErrorView::WorkspaceAlreadyExists(s@),
            Error::WorkspaceNotFound(s) => ErrorView::WorkspaceNotFound(s@),
            Error::InvalidWorkspaceName(s) => ErrorView::InvalidWorkspaceName(s@),
            Error::NotAGitRepo(s) => ErrorView::NotAGitRepo(s@),
            Error::PathNotFound(s) => ErrorView::PathNotFound(s@),
            Error::Git(s) => ErrorView::Git(s@),
            Error::Config(s) => ErrorView::Config(s@),
            Error::Io(s) => ErrorView::Io(s@),
            Error::TomlSerialize(s) => ErrorView::TomlSerialize(s@),
            Error::TomlDeserialize(s) => ErrorView::TomlDeserialize(s@),
        }
    }
}

impl DeepView for Error {
    type V = ErrorView;

    open spec fn deep_view(&self) -> ErrorView {
        self@
    }
}

impl ErrorView {
    /// The sentence shown to the user.
    pub open spec fn message(self) -> Seq<char> {
        match self {
            ErrorView::BaseNotFound(s) => "Base '"@ + s + "' not found"@,
            ErrorView::BaseAlreadyExists(s) => "Base '"@ + s + "' already exists"@,
            ErrorView::WorkspaceAlreadyExists(s) => "Workspace '"@ + s + "' already exists"@,
            ErrorView::WorkspaceNotFound(s) => "Workspace '"@ + s + "' not found"@,
            ErrorView::InvalidWorkspaceName(s) => "Invalid workspace name: "@ + s,
            ErrorView::NotAGitRepo(s) => "Path is not a git repository: "@ + s,
            ErrorView::PathNotFound(s) => "Path does not exist: "@ + s,
            ErrorView::Git(s) => "Git error: "@ + s,
            ErrorView::Config(s) => "Config error: "@ + s,
            ErrorView::Io(s) => "IO error: "@ + s,
            ErrorView::TomlSerialize(s) => "TOML serialization error: "@ + s,
            ErrorView::TomlDeserialize(s) => "TOML deserialization error: "@ + s,
        }
    }
}

impl Error {
    /// The sentence shown to the user.
    pub fn message(&self) -> (r: String)
        ensures
            r@ == self@.message(),
    {
        match self {
            Error::BaseNotFound(s) => cat3("Base '", s.as_str(), "' not found"),
            Error::BaseAlreadyExists(s) => cat3("Base '", s.as_str(), "' already exists"),
            Error::WorkspaceAlreadyExists(s) => cat3(
                "Workspace '",
                s.as_str(),
                "' already exists",
            ),
            Error::WorkspaceNotFound(s) => cat3("Workspace '", s.as_str(), "' not found"),
            Error::InvalidWorkspaceName(s) => cat("Invalid workspace name: ", s.as_str()),
            Error::NotAGitRepo(s) => cat("Path is not a git repository: ", s.as_str()),
            Error::PathNotFound(s) => cat("Path does not exist: ", s.as_str()),
            Error::Git(s) => cat("Git error: ", s.as_str()),
            Error::Config(s) => cat("Config error: ", s.as_str()),
            Error::Io(s) => cat("IO error: ", s.as_str()),
            Error::TomlSerialize(s) => cat("TOML serialization error: ", s.as_str()),
            Error::TomlDeserialize(s) => cat("TOML deserialization error: ", s.as_str()),
        }
    }
}

/// A result, part by part.
pub open spec fn outcome<T: DeepView>(r: Result<T, Error>) -> Result<T::V, ErrorView> {
    match r {
        Ok(v) => Ok(v.deep_view()),
        Err(e) => Err(e@),
    }
}

} // verus!
