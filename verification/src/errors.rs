//! Errors of the site builder. Fatal configuration errors abort a run; a
//! per-image error only skips that one reference.
use vstd::prelude::*;

verus! {

/// A fatal configuration error: the hand-authored configuration is
/// inconsistent and the run cannot safely continue.
#[derive(Debug, PartialEq, Eq)]
pub enum SiteError {
    /// A lookup for a path that no content item has.
    UnknownPath(String),
    /// Two content items carry the same path.
    DuplicateItem(String),
    /// An external main-menu entry has no title.
    MissingExternalTitle(String),
    /// A social link matching no known platform has no icon.
    MissingSocialIcon(String),
    /// A social link matching no known platform has no color.
    MissingSocialColor(String),
}

impl SiteError {
    /// The path or URL the error is about.
    pub fn subject(&self) -> (r: &str)
        ensures
            r@ == match *self {
                SiteError::UnknownPath(ref s) => s@,
                SiteError::DuplicateItem(ref s) => s@,
                SiteError::MissingExternalTitle(ref s) => s@,
                SiteError::MissingSocialIcon(ref s) => s@,
                SiteError::MissingSocialColor(ref s) => s@,
            },
    {
        match self {
            SiteError::UnknownPath(s) => s.as_str(),
            SiteError::DuplicateItem(s) => s.as_str(),
            SiteError::MissingExternalTitle(s) => s.as_str(),
            SiteError::MissingSocialIcon(s) => s.as_str(),
            SiteError::MissingSocialColor(s) => s.as_str(),
        }
    }
}

/// A recoverable per-image error: the reference is reported and skipped.
#[derive(Debug, PartialEq, Eq)]
pub enum ImageError {
    /// The reference's file name has no period, so no output name can be
    /// derived from it.
    NoFileExtension(String),
}

} // verus!
