//! Rule evaluation for messages held in remote mail folders.
//!
//! A rule is an ordered list of [`actions::Action`]s. The evaluator in
//! [`filters`] walks such a list for one message, lets custom logic splice
//! further actions in front of what is left, and yields the message's
//! [`disposition::Disposition`]. What a run may end in is defined in
//! [`evaluation`], and what a pass over a folder does to the marks in
//! [`cache`] is defined in [`sweep`].

pub mod actions;
pub mod cache;
pub mod chain;
pub mod disposition;
pub mod evaluation;
pub mod filters;
pub mod flags;
pub mod sweep;
pub mod types;
