//! An incremental JSON lexer.
//!
//! JSON text arrives in chunks of any size. The `buffer` holds the chunks and
//! gives their characters out one at a time, with one character of pushback.
//! The `scanners` turn characters into `tokens`: each kind of token has a rule
//! that takes one character at a time and a scan that applies the rule to a
//! buffer. The `tokenizer` takes whole tokens out of a buffer and can stop in
//! the middle of one when the buffer runs dry, to go on when more has come.
//!
//! Every function states what it returns over the characters that are still
//! to be read (`BufferView`), so that what a scan does can be followed on
//! plain sequences of characters.

pub mod buffer;
pub mod error;
pub mod scanners;
pub mod tokenizer;
pub mod tokens;
