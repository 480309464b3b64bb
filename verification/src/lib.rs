//! Decisions of a walk that copies a subtree of a remote repository to local
//! storage, one lookup at a time.
//!
//! The library performs no lookup and writes no file. A driver does both and
//! asks the library, at every reply, what to do next:
//!
//! - [`path`] turns the path asked for into the form that a lookup takes;
//! - [`reply`] reads the envelope of a reply;
//! - [`lookup`] holds the two lookups, [`lookup::Start`] and
//!   [`lookup::Cont`], and takes the step for the reply to each;
//! - [`plan`] decides the step for an object by its kind, and fans a
//!   directory out into the lookups of its entries;
//! - [`walk`] states what holds of a whole walk, in whatever order its
//!   lookups complete.

pub mod error;
pub mod fan_out;
pub mod lookup;
pub mod object;
pub mod path;
pub mod plan;
pub mod reply;
pub mod walk;
