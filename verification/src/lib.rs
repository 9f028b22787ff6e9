//! A minimal streaming JSON text encoder.
//!
//! Values are appended directly to a caller-supplied `String`; there is no
//! intermediate document tree.  The free functions write one top-level value;
//! [`object`] and [`array`] open scoped writers that place commas between
//! entries and close their bracket when [`Object::end`] or [`Array::end`] is
//! called.
//!
//! Every appending operation states in its contract exactly which characters
//! it adds to the buffer, in terms of the spec-level escaping model in
//! [`text`].

pub mod encode;
pub mod laws;
pub mod model;
pub mod parse;
pub mod text;
pub mod writer;

pub use writer::Array;
pub use writer::Object;

use vstd::prelude::*;
use crate::encode::{encode_bool, encode_null, encode_number, encode_str};
use crate::text::{bool_text, json_string, null_text};

verus! {

/// Appends the JSON literal `null` as a top-level value.
pub fn null(buf: &mut String)
    ensures
        final(buf)@ == old(buf)@ + null_text(),
{
    encode_null(buf);
}

/// Appends `true` or `false` as a top-level value.
pub fn bool(buf: &mut String, value: bool)
    ensures
        final(buf)@ == old(buf)@ + bool_text(value),
{
    encode_bool(buf, value);
}

/// Appends a top-level number, given as its decimal rendering, which is
/// appended verbatim.
pub fn number(buf: &mut String, digits: &str)
    ensures
        final(buf)@ == old(buf)@ + digits@,
{
    encode_number(buf, digits);
}

/// Appends a top-level string as a quoted, escaped JSON string literal.
pub fn string(buf: &mut String, value: &str)
    ensures
        final(buf)@ == old(buf)@ + json_string(value@),
{
    encode_str(buf, value);
}

/// Opens a top-level object scope: appends `{` and returns its writer.
pub fn object(buf: &mut String) -> (w: Object)
    ensures
        final(buf)@ == old(buf)@ + seq!['{'],
        w.is_first(),
{
    Object::new(buf)
}

/// Opens a top-level array scope: appends `[` and returns its writer.
pub fn array(buf: &mut String) -> (w: Array)
    ensures
        final(buf)@ == old(buf)@ + seq!['['],
        w.is_first(),
{
    Array::new(buf)
}

} // verus!
