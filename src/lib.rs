//! Measuring contributions to GitHub repositories.
//!
//! The library pages through the GitHub GraphQL API, classifies who answered
//! each issue and pull request and when, and folds those threads into
//! response-time and contributor statistics. Fetching, decoding and printing
//! are left to the caller: every function here works on plain values.

pub mod contribs;
pub mod github;
pub mod order;
pub mod repo;
pub mod some;
pub mod stats;
pub mod tally;
pub mod text;
pub mod thread;
pub mod time;
pub mod users;

pub use stats::{gather, Postings, ResponseTimes, Statistics};
pub use tally::Tally;
pub use thread::{Issue, Thread, PR};
pub use time::Timestamp;
pub use users::{user_contributions, User, UserContribs};
