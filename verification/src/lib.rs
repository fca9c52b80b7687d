//! The core of an object-tag store: tag names and values, pending edits to an object's
//! tags and how they compose and commit, the contexts that hooks are called with, the
//! messages exchanged with handlers in other processes, and a builder for parameterized
//! `select` statements.
pub mod error;
pub mod function;
pub mod hook;
pub mod object;
pub mod proto;
pub mod query;
pub mod session;
pub mod strmap;
pub mod tag;
