//! Typed failures of the activation engine.
//!
//! Every failure mode is a value: the engine never aborts the process.
//! Each error carries the offending path or name, and has a
//! specification-level view so contracts can say exactly which error
//! comes out of which input.

use vstd::prelude::*;

verus! {

/// Why loading a directory's declarations failed.
#[derive(PartialEq, Eq, Structural, Clone, Copy, Debug)]
pub enum ConfigError {
    /// The declaration source does not parse.
    Parse,
}

/// Why selecting a named environment from the declarations failed.
#[derive(Debug)]
pub enum SelectionError {
    /// The declaration source declares no environments at all.
    NoEnvironmentsDeclared,
    /// The requested name is not among the declared environments.
    UnknownEnvironment(String),
}

/// Specification-level image of `SelectionError`.
pub enum SelectionErrorView {
    NoEnvironmentsDeclared,
    UnknownEnvironment(Seq<char>),
}

impl View for SelectionError {
    type V = SelectionErrorView;

    open spec fn view(&self) -> SelectionErrorView {
        match self {
            SelectionError::NoEnvironmentsDeclared => SelectionErrorView::NoEnvironmentsDeclared,
            SelectionError::UnknownEnvironment(n) => SelectionErrorView::UnknownEnvironment(n@),
        }
    }
}

/// Why a persisted record could not be understood.
#[derive(PartialEq, Eq, Structural, Clone, Copy, Debug)]
pub enum StateStoreError {
    /// The active-variables record exists but does not parse.
    CorruptVariables,
    /// The active-links record exists but does not parse.
    CorruptLinks,
}

/// Why creating or removing a symlink was refused.  Creation errors carry
/// the path that was refused; `NotASymlink` carries the entry that would
/// have been deleted wrongly.
#[derive(Debug)]
pub enum LinkError {
    /// A declared path starts with a current- or parent-directory
    /// segment, escaping the declaring directory.
    InvalidPath(String),
    /// The entry a link should point at does not exist.
    SourceMissing(String),
    /// The place the link should be created at is already occupied.
    TargetExists(String),
    /// The place the link should be created at already holds a symlink.
    LinkExists(String),
    /// A recorded link target is no longer a symlink, so it is not removed.
    NotASymlink(String),
}

/// Specification-level image of `LinkError`.
pub enum LinkErrorView {
    InvalidPath(Seq<char>),
    SourceMissing(Seq<char>),
    TargetExists(Seq<char>),
    LinkExists(Seq<char>),
    NotASymlink(Seq<char>),
}

impl View for LinkError {
    type V = LinkErrorView;

    open spec fn view(&self) -> LinkErrorView {
        match self {
            LinkError::InvalidPath(p) => LinkErrorView::InvalidPath(p@),
            LinkError::SourceMissing(p) => LinkErrorView::SourceMissing(p@),
            LinkError::TargetExists(p) => LinkErrorView::TargetExists(p@),
            LinkError::LinkExists(p) => LinkErrorView::LinkExists(p@),
            LinkError::NotASymlink(p) => LinkErrorView::NotASymlink(p@),
        }
    }
}

/// Two directories in one aggregation both define a variable.
#[derive(Debug)]
pub struct CollisionError {
    /// The variable defined twice.
    pub key: String,
    /// The directory whose consolidated result the collision surfaced in.
    pub first_directory: String,
    /// The descendant directory that defines the variable again.
    pub second_directory: String,
}

/// Specification-level image of `CollisionError`.
pub struct CollisionErrorView {
    pub key: Seq<char>,
    pub first_directory: Seq<char>,
    pub second_directory: Seq<char>,
}

impl View for CollisionError {
    type V = CollisionErrorView;

    open spec fn view(&self) -> CollisionErrorView {
        CollisionErrorView {
            key: self.key@,
            first_directory: self.first_directory@,
            second_directory: self.second_directory@,
        }
    }
}

} // verus!
