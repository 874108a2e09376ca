//! Filtering and ordering of word lists.
//!
//! A [`WordFinder`] holds a word list, a chain of [`WordPredicate`]s that
//! filters it, and the [`WordOrder`] in which what is left is shown. A
//! [`Session`] is an editing session on a finder, driven by key presses.

pub mod arrange;
pub mod decimal;
pub mod error;
pub mod filter;
pub mod lexical;
pub mod load;
pub mod matching;
pub mod ord;
pub mod pred;
pub mod prime;
pub mod rule;
pub mod session;
pub mod sort;
pub mod text;
pub mod words;

pub use crate::error::FinderError;
pub use crate::filter::WordFilter;
pub use crate::ord::WordOrder;
pub use crate::pred::WordPredicate;
pub use crate::session::Session;
pub use crate::sort::Sorter;
pub use crate::words::WordFinder;
