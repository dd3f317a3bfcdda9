//! A small personal income/expense ledger.
//!
//! The ledger records immutable entries (`Item`): a free-text name, a
//! category (income or expense, each with three sub-categories), a
//! non-negative price magnitude, and a calendar date.  Raw numeric codes
//! from an input layer are checked by the validator before a category is
//! constructed.  The whole dataset is persisted as one pretty-printed
//! JSON snapshot; loading parses that snapshot back, and saving then
//! loading is proved to reproduce the original sequence of entries.

pub mod codec;
pub mod io;
pub mod models;
pub mod validate;
