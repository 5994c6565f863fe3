//! A macro-expansion engine in the tradition of classic text preprocessors:
//! input mixes literal text with macro invocations; expansion output is
//! re-fed through the scanner (rescanning) so macros can invoke other
//! macros, including themselves. Expression evaluation, file access and
//! shell commands are reached through the [`h4::Bridge`] trait, which a
//! host adapter implements outside the engine.

pub mod builtin;
pub mod h4;
pub mod insertable;
pub mod output;
pub mod scopes;
pub mod text;

use vstd::prelude::*;

verus! {

/// A character is a name character when it may appear in a macro name:
/// ASCII letters, digits, underscore, and the `@` sigil of control macros.
pub open spec fn is_name_char_spec(c: char) -> bool {
    ||| 'a' <= c && c <= 'z'
    ||| 'A' <= c && c <= 'Z'
    ||| '0' <= c && c <= '9'
    ||| c == '_'
    ||| c == '@'
}

pub fn is_name_char(c: char) -> (r: bool)
    ensures
        r == is_name_char_spec(c),
{
    ('a' <= c && c <= 'z') || ('A' <= c && c <= 'Z') || ('0' <= c && c <= '9') || c == '_'
        || c == '@'
}

} // verus!

