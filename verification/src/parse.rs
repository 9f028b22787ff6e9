//! Spec-level model of a conformant JSON parser over the texts the encoder
//! emits: no whitespace, numbers read greedily, strings ended by the first
//! unescaped quote.  It exists so that the round-trip law can say that the
//! text of a document parses back to that document.

use vstd::prelude::*;
use crate::model::{num_char, JVal};
use crate::text::take_string_body;

verus! {

/// The length of the maximal number token at the front of `t`.
pub open spec fn num_run(t: Seq<char>) -> int
    decreases t.len(),
{
    if t.len() == 0 {
        0
    } else if num_char(t[0]) {
        1 + num_run(t.drop_first())
    } else {
        0
    }
}

/// The rests a value can be followed by inside a document: nothing, or a
/// separator or closer put there by the enclosing scope.  A greedy number
/// token stops exactly at such a rest.
pub open spec fn delimited(r: Seq<char>) -> bool {
    r.len() == 0 || r[0] == ',' || r[0] == ']' || r[0] == '}'
}

/// Reads one JSON value from the front of `t` and returns it with the
/// remaining text.  Dispatch is on the first character; `null`, `true` and
/// `false` are matched literally, a quote opens a string, a bracket opens a
/// container, and a number character starts a greedy number token.
pub open spec fn parse_value(t: Seq<char>) -> Option<(JVal, Seq<char>)>
    decreases t.len(), 0int,
{
    if t.len() == 0 {
        None
    } else if t[0] == 'n' {
        if t.len() >= 4 && t[1] == 'u' && t[2] == 'l' && t[3] == 'l' {
            Some((JVal::Null, t.skip(4)))
        } else {
            None
        }
    } else if t[0] == 't' {
        if t.len() >= 4 && t[1] == 'r' && t[2] == 'u' && t[3] == 'e' {
            Some((JVal::Bool(true), t.skip(4)))
        } else {
            None
        }
    } else if t[0] == 'f' {
        if t.len() >= 5 && t[1] == 'a' && t[2] == 'l' && t[3] == 's' && t[4] == 'e' {
            Some((JVal::Bool(false), t.skip(5)))
        } else {
            None
        }
    } else if t[0] == '"' {
        match take_string_body(t.skip(1)) {
            Some(p) => Some((JVal::Str(p.0), p.1)),
            None => None,
        }
    } else if t[0] == '[' {
        if t.len() >= 2 && t[1] == ']' {
            Some((JVal::Arr(Seq::<JVal>::empty()), t.skip(2)))
        } else {
            match parse_elements(t.skip(1)) {
                Some(p) => Some((JVal::Arr(p.0), p.1)),
                None => None,
            }
        }
    } else if t[0] == '{' {
        if t.len() >= 2 && t[1] == '}' {
            Some((JVal::Obj(Seq::<(Seq<char>, JVal)>::empty()), t.skip(2)))
        } else {
            match parse_members(t.skip(1)) {
                Some(p) => Some((JVal::Obj(p.0), p.1)),
                None => None,
            }
        }
    } else if num_char(t[0]) {
        Some((JVal::Num(t.take(num_run(t))), t.skip(num_run(t))))
    } else {
        None
    }
}

/// Reads the nonempty element list of an array, from just after the `[`
/// up to and including the `]`.
pub open spec fn parse_elements(t: Seq<char>) -> Option<(Seq<JVal>, Seq<char>)>
    decreases t.len(), 1int,
{
    match parse_value(t) {
        Some(p) => if p.1.len() >= 1 && p.1[0] == ']' {
            Some((seq![p.0], p.1.skip(1)))
        } else if p.1.len() >= 1 && p.1[0] == ',' && p.1.skip(1).len() < t.len() {
            match parse_elements(p.1.skip(1)) {
                Some(q) => Some((seq![p.0] + q.0, q.1)),
                None => None,
            }
        } else {
            None
        },
        None => None,
    }
}

/// Reads the nonempty member list of an object, from just after the `{`
/// up to and including the `}`.  Each member is a string key, a colon and
/// a value.
pub open spec fn parse_members(t: Seq<char>) -> Option<(Seq<(Seq<char>, JVal)>, Seq<char>)>
    decreases t.len(), 1int,
{
    if t.len() >= 1 && t[0] == '"' {
        match take_string_body(t.skip(1)) {
            Some(kp) => if kp.1.len() >= 1 && kp.1[0] == ':' && kp.1.skip(1).len() < t.len() {
                match parse_value(kp.1.skip(1)) {
                    Some(p) => if p.1.len() >= 1 && p.1[0] == '}' {
                        Some((seq![(kp.0, p.0)], p.1.skip(1)))
                    } else if p.1.len() >= 1 && p.1[0] == ',' && p.1.skip(1).len() < t.len() {
                        match parse_members(p.1.skip(1)) {
                            Some(q) => Some((seq![(kp.0, p.0)] + q.0, q.1)),
                            None => None,
                        }
                    } else {
                        None
                    },
                    None => None,
                }
            } else {
                None
            },
            None => None,
        }
    } else {
        None
    }
}

/// Reads a whole document: one value with nothing after it.
pub open spec fn parse_document(t: Seq<char>) -> Option<JVal> {
    match parse_value(t) {
        Some(p) => if p.1.len() == 0 {
            Some(p.0)
        } else {
            None
        },
        None => None,
    }
}

} // verus!
