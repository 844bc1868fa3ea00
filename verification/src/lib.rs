//! A decode-only parsing core for line-oriented header grammars: a
//! cursor-based combinator library over byte slices, an encoded-word
//! decoder for `=?charset?encoding?text?=` tokens, and a quoted-string
//! parser, all built around a text value that stays a borrowed view of the
//! input buffer until a decode or a non-adjacent merge forces a copy.
#![verifier::loop_isolation(false)]

pub mod base64;
pub mod charsets;
pub mod classify;
pub mod encoded_headers;
pub mod combinators;
pub mod quoted_printables;
pub mod quoted_string;
pub mod text;

use vstd::prelude::*;

verus! {

/// Classified parse failure, returned as a value by every parser.
#[derive(Clone, Copy, Debug, PartialEq, Eq, Structural)]
pub enum Error {
    /// An expected literal was not found at the current position;
    /// recoverable by the caller through alternation.
    TagMismatch,
    /// A required sub-production (delimiter, separator, non-empty token)
    /// is missing or malformed.
    GrammarViolation,
    /// A recognized but unimplemented transfer encoding or charset name.
    Unsupported,
    /// The transfer- or charset-decoded bytes are not valid text.
    DecodeFailure,
}

} // verus!
