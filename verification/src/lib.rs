//! Session-keyed record naming and vote tallying for an anonymous polling
//! service whose whole state lives in a flat key-value store with expiry.
//!
//! A creator stores a question set and gets the key of its session. Voters
//! store vote batches under keys that are named after that key. The tally is
//! made on demand: every batch under the session's prefix is listed, read and
//! counted.

pub mod aggregate;
pub mod error;
pub mod keys;
pub mod question;
pub mod records;
pub mod repository;
pub mod search;
pub mod store;
pub mod tally;

pub use crate::aggregate::{ComputeTally, TallyResult};
pub use crate::error::PollError;
pub use crate::records::{Answer, Count, Question, Score, Session, Type, Vote};
pub use crate::repository::{CreateQuestionSet, GetQuestionSet, SubmitVotes};
pub use crate::search::KeySearch;
pub use crate::store::{Policy, Reply, Request, Step};
pub use crate::tally::{AnswerTally, Tally, ValueCount};
