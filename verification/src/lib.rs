//! A commit-message style checker: resolves a revision expression over a
//! repository model into an ordered run of commits, parses each raw message
//! under a conventional or a plain grammar, and validates the result against
//! configurable thresholds (subject length, line length, capitalization),
//! reporting the first violation.

pub mod checks;
pub mod config;
pub mod error;
pub mod message;
pub mod repo;
pub mod run;
pub mod text;

pub use checks::check_capitalized_subject;
pub use checks::check_line_length;
pub use checks::check_message;
pub use checks::check_subject_length;
pub use config::Config;
pub use config::Style;
pub use error::CheckError;
pub use error::RunError;
pub use message::parse_conventional;
pub use message::parse_plain;
pub use message::ParsedMessage;
pub use repo::CommitRecord;
pub use repo::Repository;
pub use run::check_all;
