//! Threshold configuration: each field is independently optional and falls
//! back to a fixed default. A length limit of zero disables that check.

use vstd::prelude::*;

verus! {

/// Which grammar a raw message is parsed under.
#[derive(Clone, Copy, Debug, PartialEq, Eq, Structural)]
pub enum Style {
    /// `type[(scope)][!]: description`, blank line, optional body.
    Conventional,
    /// First line is the subject, the rest is body.
    Plain,
}

/// Validation thresholds. A `None` field means "use the default";
/// a length limit of zero disables the corresponding check.
#[derive(Clone, Debug, PartialEq, Eq)]
pub struct Config {
    pub subject_length: Option<usize>,
    pub subject_capitalized: Option<bool>,
    pub line_length: Option<usize>,
    pub style: Option<Style>,
}

impl Config {
    /// Effective subject-length limit: the configured value, or 50.
    pub open spec fn spec_subject_length(&self) -> usize {
        match self.subject_length {
            Some(n) => n,
            None => 50,
        }
    }

    /// Effective capitalization flag: the configured value, or true.
    pub open spec fn spec_subject_capitalized(&self) -> bool {
        match self.subject_capitalized {
            Some(b) => b,
            None => true,
        }
    }

    /// Effective line-length limit: the configured value, or 72.
    pub open spec fn spec_line_length(&self) -> usize {
        match self.line_length {
            Some(n) => n,
            None => 72,
        }
    }

    /// Effective style: the configured value, or `Style::Conventional`.
    pub open spec fn spec_style(&self) -> Style {
        match self.style {
            Some(s) => s,
            None => Style::Conventional,
        }
    }

    pub fn subject_length(&self) -> (r: usize)
        ensures
            r == self.spec_subject_length(),
    {
        match self.subject_length {
            Some(n) => n,
            None => 50,
        }
    }

    pub fn subject_capitalized(&self) -> (r: bool)
        ensures
            r == self.spec_subject_capitalized(),
    {
        match self.subject_capitalized {
            Some(b) => b,
            None => true,
        }
    }

    pub fn line_length(&self) -> (r: usize)
        ensures
            r == self.spec_line_length(),
    {
        match self.line_length {
            Some(n) => n,
            None => 72,
        }
    }

    pub fn style(&self) -> (r: Style)
        ensures
            r == self.spec_style(),
    {
        match self.style {
            Some(s) => s,
            None => Style::Conventional,
        }
    }
}

impl Default for Config {
    /// The all-default configuration: every field unset.
    fn default() -> (r: Self)
        ensures
            r.subject_length is None,
            r.subject_capitalized is None,
            r.line_length is None,
            r.style is None,
    {
        Config { subject_length: None, subject_capitalized: None, line_length: None, style: None }
    }
}

} // verus!
