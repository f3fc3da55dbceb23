//! A small parser-combinator engine: matchers that read a cursor over a text
//! and either succeed with the matched fragments and an advanced cursor, or
//! fail and leave the cursor to the caller.
//!
//! A grammar is a tree of matchers. The leaves match a fixed string
//! ([`lit::Lit`]) or one character of a class ([`class::Char`]); the inner
//! nodes put matchers one after another ([`sequence::Sequence`]), repeat one
//! ([`rep::Rep`]) or try several in order ([`alt::Alt`]). Every node is a
//! [`parse::Parse`]: its `matched` says, for each text and offset, what the
//! match is, and its `parse` is proved to return exactly that.
//!
//! A class is given by its interior, the text between its brackets;
//! [`interior::one_class`] says which texts are the interior of one class.
//!
//! Offsets count characters, and a cursor past the end of its text is
//! allowed: nothing matches there but what matches the empty string.

pub mod alt;
pub mod class;
pub mod interior;
pub mod lit;
pub mod parse;
pub mod rep;
pub mod sequence;
pub mod state;
