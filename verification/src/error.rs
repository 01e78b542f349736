//! The conditions under which resolution or a policy check fails.

use vstd::prelude::*;

verus! {

/// What can go wrong while manifests are resolved and checked.
#[derive(Debug, Clone, Copy, PartialEq, Eq, Structural)]
pub enum Error {
    /// A manifest lacks a field that its kind requires, or a text that
    /// should hold manifests cannot be read as such.
    MalformedManifest,
    /// An application is sourced from a repository that has no local
    /// checkout.
    UnsupportedSource,
    /// Rendering an application failed, or what it rendered cannot be read.
    RenderFailure,
    /// Rendering kept discovering applications past the allowed number of
    /// rounds.
    ResolutionDidNotConverge,
    /// An application names a project that is not known.
    UnknownProject,
    /// An application targets a namespace that is not known.
    UnknownNamespace,
    /// An application targets a namespace that its project may not write.
    NamespaceNotWritable,
    /// An application is sourced from a repository that its project may
    /// not use.
    RepoNotAllowed,
}

impl Error {
    /// The four policy violations: they are reported, and the
    /// application that follows is still checked.
    pub open spec fn is_violation(self) -> bool {
        self is UnknownProject || self is UnknownNamespace || self is NamespaceNotWritable
            || self is RepoNotAllowed
    }

    /// Whether this is one of the four policy violations.
    pub fn is_policy_violation(&self) -> (r: bool)
        ensures
            r == self.is_violation(),
    {
        match self {
            Error::UnknownProject => true,
            Error::UnknownNamespace => true,
            Error::NamespaceNotWritable => true,
            Error::RepoNotAllowed => true,
            _ => false,
        }
    }
}

/// A failure that is attributed to one application.
#[derive(Debug, Clone, PartialEq, Eq)]
pub struct Diagnostic {
    pub application: String,
    pub error: Error,
}

/// The model of a diagnostic.
pub struct DiagnosticView {
    pub application: Seq<char>,
    pub error: Error,
}

impl View for Diagnostic {
    type V = DiagnosticView;

    open spec fn view(&self) -> DiagnosticView {
        DiagnosticView { application: self.application@, error: self.error }
    }
}

} // verus!
