//! Recovery of a byte string from its digest by exhaustive search over the
//! orderings of a small set of byte tokens.
//!
//! Every ordering of the tokens is joined with a delimiter and hashed; the
//! search reports a joined string whose digest equals the target, or that no
//! ordering has that digest. With a time window, each second of the window
//! joins the tokens in turn, as its decimal form, and gets a sweep of its own.
//!
//! - [`hashes`]: the digest algorithms, and the oracle that hashes one
//!   candidate and compares it with the target;
//! - [`join`]: joining tokens with a delimiter, and splitting on one;
//! - [`lines`]: the records of a newline-delimited file;
//! - [`permute`]: the orderings of a token set, generated one at a time or
//!   all at once;
//! - [`counting`]: the proof that `n` things have `n!` orderings;
//! - [`search`]: one sweep over all orderings, spread over the worker pool;
//! - [`timestamp`]: timestamps and the window between two of them;
//! - [`timeaxis`]: the search over the seconds of a window;
//! - [`target`]: the target digest, decoded from hexadecimal;
//! - [`config`]: the checked configuration of a search, and its run.
//!
//! The digests, the generator of orderings, the parallel search, the
//! hexadecimal decoder and the timestamp parser are those of other crates.
//! What is taken on trust of them is stated, and marked as trusted, where
//! each is called.

pub mod config;
pub mod counting;
pub mod hashes;
pub mod join;
pub mod lines;
pub mod permute;
pub mod search;
pub mod target;
pub mod timeaxis;
pub mod timestamp;
