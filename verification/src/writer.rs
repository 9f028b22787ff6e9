//! Scoped writers for JSON objects and arrays.
//!
//! A writer is opened with [`crate::object`] or [`crate::array`], which
//! appends the opening bracket; every entry method appends a comma first
//! unless the entry is the writer's first; and [`Object::end`] /
//! [`Array::end`] consume the writer and append the matching closing
//! bracket, so a closed writer cannot be written to again.
//!
//! The writer holds only its comma state; the buffer is passed to each call,
//! so nested scopes opened by [`Object::object`] and friends append to the
//! same buffer.  A caller is expected to finish a nested writer before
//! touching its parent again; every call's contract states exactly what it
//! appends, so the output of any call order is still fully determined.

use vstd::prelude::*;
use crate::encode::{encode_bool, encode_null, encode_number, encode_str, push_char};
use crate::text::{bool_text, json_string, null_text};

verus! {

/// The comma that precedes every entry but the first.
pub open spec fn sep(first: bool) -> Seq<char> {
    if first {
        Seq::<char>::empty()
    } else {
        seq![',']
    }
}

/// The characters one object field contributes: the separator, the escaped
/// key, a colon, and the field's value text.
pub open spec fn field_text(first: bool, key: Seq<char>, value: Seq<char>) -> Seq<char> {
    sep(first) + json_string(key) + seq![':'] + value
}

/// The characters one array element contributes: the separator and the
/// element's value text.
pub open spec fn element_text(first: bool, value: Seq<char>) -> Seq<char> {
    sep(first) + value
}

/// A scoped writer for one JSON object.
pub struct Object {
    first: bool,
}

/// A scoped writer for one JSON array.
pub struct Array {
    first: bool,
}

impl Object {
    /// True while no field has been written yet, so the next entry takes no
    /// preceding comma.
    pub closed spec fn is_first(self) -> bool {
        self.first
    }

    /// Opens an object scope: appends `{`.
    pub fn new(buf: &mut String) -> (w: Object)
        ensures
            final(buf)@ == old(buf)@ + seq!['{'],
            w.is_first(),
    {
        push_char(buf, '{');
        Object { first: true }
    }

    /// Appends the separator, the escaped key and the colon of one field.
    fn key(&mut self, buf: &mut String, key: &str)
        ensures
            final(buf)@ == old(buf)@ + sep(old(self).is_first()) + json_string(key@)
                + seq![':'],
            !final(self).is_first(),
    {
        if !self.first {
            push_char(buf, ',');
        }
        self.first = false;
        encode_str(buf, key);
        push_char(buf, ':');
        assert(buf@ =~= old(buf)@ + sep(old(self).is_first()) + json_string(key@) + seq![':']);
    }

    /// Writes a field holding `null`.
    pub fn null(&mut self, buf: &mut String, key: &str)
        ensures
            final(buf)@ == old(buf)@ + field_text(old(self).is_first(), key@, null_text()),
            !final(self).is_first(),
    {
        self.key(buf, key);
        encode_null(buf);
        assert(buf@ =~= old(buf)@ + field_text(old(self).is_first(), key@, null_text()));
    }

    /// Writes a field holding `true` or `false`.
    pub fn bool(&mut self, buf: &mut String, key: &str, value: bool)
        ensures
            final(buf)@ == old(buf)@ + field_text(old(self).is_first(), key@, bool_text(value)),
            !final(self).is_first(),
    {
        self.key(buf, key);
        encode_bool(buf, value);
        assert(buf@ =~= old(buf)@ + field_text(old(self).is_first(), key@, bool_text(value)));
    }

    /// Writes a field holding a number, given as its decimal rendering,
    /// which is appended verbatim.
    pub fn number(&mut self, buf: &mut String, key: &str, digits: &str)
        ensures
            final(buf)@ == old(buf)@ + field_text(old(self).is_first(), key@, digits@),
            !final(self).is_first(),
    {
        self.key(buf, key);
        encode_number(buf, digits);
        assert(buf@ =~= old(buf)@ + field_text(old(self).is_first(), key@, digits@));
    }

    /// Writes a field holding an escaped string.
    pub fn string(&mut self, buf: &mut String, key: &str, value: &str)
        ensures
            final(buf)@ == old(buf)@ + field_text(old(self).is_first(), key@, json_string(value@)),
            !final(self).is_first(),
    {
        self.key(buf, key);
        encode_str(buf, value);
        assert(buf@ =~= old(buf)@ + field_text(old(self).is_first(), key@, json_string(value@)));
    }

    /// Opens a nested object under `key` and returns its writer; the child
    /// scope should be finished with [`Object::end`] before this writer is
    /// used again.
    pub fn object(&mut self, buf: &mut String, key: &str) -> (w: Object)
        ensures
            final(buf)@ == old(buf)@ + field_text(old(self).is_first(), key@, seq!['{']),
            !final(self).is_first(),
            w.is_first(),
    {
        self.key(buf, key);
        let w = Object::new(buf);
        assert(buf@ =~= old(buf)@ + field_text(old(self).is_first(), key@, seq!['{']));
        w
    }

    /// Opens a nested array under `key` and returns its writer; the child
    /// scope should be finished with [`Array::end`] before this writer is
    /// used again.
    pub fn array(&mut self, buf: &mut String, key: &str) -> (w: Array)
        ensures
            final(buf)@ == old(buf)@ + field_text(old(self).is_first(), key@, seq!['[']),
            !final(self).is_first(),
            w.is_first(),
    {
        self.key(buf, key);
        let w = Array::new(buf);
        assert(buf@ =~= old(buf)@ + field_text(old(self).is_first(), key@, seq!['[']));
        w
    }

    /// Closes the object scope: appends `}` exactly once and consumes the
    /// writer.
    pub fn end(self, buf: &mut String)
        ensures
            final(buf)@ == old(buf)@ + seq!['}'],
    {
        push_char(buf, '}');
    }
}

impl Array {
    /// True while no element has been written yet, so the next entry takes
    /// no preceding comma.
    pub closed spec fn is_first(self) -> bool {
        self.first
    }

    /// Opens an array scope: appends `[`.
    pub fn new(buf: &mut String) -> (w: Array)
        ensures
            final(buf)@ == old(buf)@ + seq!['['],
            w.is_first(),
    {
        push_char(buf, '[');
        Array { first: true }
    }

    /// Appends the separator that precedes every element but the first.
    fn comma(&mut self, buf: &mut String)
        ensures
            final(buf)@ == old(buf)@ + sep(old(self).is_first()),
            !final(self).is_first(),
    {
        if !self.first {
            push_char(buf, ',');
        }
        self.first = false;
        assert(buf@ =~= old(buf)@ + sep(old(self).is_first()));
    }

    /// Writes an element holding `null`.
    pub fn null(&mut self, buf: &mut String)
        ensures
            final(buf)@ == old(buf)@ + element_text(old(self).is_first(), null_text()),
            !final(self).is_first(),
    {
        self.comma(buf);
        encode_null(buf);
        assert(buf@ =~= old(buf)@ + element_text(old(self).is_first(), null_text()));
    }

    /// Writes an element holding `true` or `false`.
    pub fn bool(&mut self, buf: &mut String, value: bool)
        ensures
            final(buf)@ == old(buf)@ + element_text(old(self).is_first(), bool_text(value)),
            !final(self).is_first(),
    {
        self.comma(buf);
        encode_bool(buf, value);
        assert(buf@ =~= old(buf)@ + element_text(old(self).is_first(), bool_text(value)));
    }

    /// Writes an element holding a number, given as its decimal rendering,
    /// which is appended verbatim.
    pub fn number(&mut self, buf: &mut String, digits: &str)
        ensures
            final(buf)@ == old(buf)@ + element_text(old(self).is_first(), digits@),
            !final(self).is_first(),
    {
        self.comma(buf);
        encode_number(buf, digits);
        assert(buf@ =~= old(buf)@ + element_text(old(self).is_first(), digits@));
    }

    /// Writes an element holding an escaped string.
    pub fn string(&mut self, buf: &mut String, value: &str)
        ensures
            final(buf)@ == old(buf)@ + element_text(old(self).is_first(), json_string(value@)),
            !final(self).is_first(),
    {
        self.comma(buf);
        encode_str(buf, value);
        assert(buf@ =~= old(buf)@ + element_text(old(self).is_first(), json_string(value@)));
    }

    /// Opens a nested object element and returns its writer; the child
    /// scope should be finished with [`Object::end`] before this writer is
    /// used again.
    pub fn object(&mut self, buf: &mut String) -> (w: Object)
        ensures
            final(buf)@ == old(buf)@ + element_text(old(self).is_first(), seq!['{']),
            !final(self).is_first(),
            w.is_first(),
    {
        self.comma(buf);
        let w = Object::new(buf);
        assert(buf@ =~= old(buf)@ + element_text(old(self).is_first(), seq!['{']));
        w
    }

    /// Opens a nested array element and returns its writer; the child scope
    /// should be finished with [`Array::end`] before this writer is used
    /// again.
    pub fn array(&mut self, buf: &mut String) -> (w: Array)
        ensures
            final(buf)@ == old(buf)@ + element_text(old(self).is_first(), seq!['[']),
            !final(self).is_first(),
            w.is_first(),
    {
        self.comma(buf);
        let w = Array::new(buf);
        assert(buf@ =~= old(buf)@ + element_text(old(self).is_first(), seq!['[']));
        w
    }

    /// Closes the array scope: appends `]` exactly once and consumes the
    /// writer.
    pub fn end(self, buf: &mut String)
        ensures
            final(buf)@ == old(buf)@ + seq![']'],
    {
        push_char(buf, ']');
    }
}

} // verus!
