//! Spec-level model of a JSON document and a structural scanner over its
//! text.
//!
//! [`JVal`] describes the document that a sequence of writer calls implies:
//! one entry per field or element, in call order.  [`jtext`] gives the exact
//! characters that the encoder emits for it, built from the same spec
//! functions that the executable functions' contracts use.  [`scan`] walks a
//! text fragment and tracks bracket depth outside string literals, which
//! lets the structural laws speak of balance, nesting and comma counts.

use vstd::prelude::*;
use crate::text::{bool_text, json_string, null_text};

verus! {

/// The document implied by a call sequence: a field or element per entry,
/// in call order.  A number is carried as its decimal rendering.
pub enum JVal {
    Null,
    Bool(bool),
    Num(Seq<char>),
    Str(Seq<char>),
    Arr(Seq<JVal>),
    Obj(Seq<(Seq<char>, JVal)>),
}

/// Characters that may appear in a number's decimal rendering.
pub open spec fn num_char(c: char) -> bool {
    ('0' <= c && c <= '9') || c == '-' || c == '+' || c == '.' || c == 'e' || c == 'E'
}

/// Well-formedness of a document: every number rendering is nonempty and
/// made of number characters.  Strings and keys are arbitrary.
pub open spec fn wf(v: JVal) -> bool
    decreases v,
{
    match v {
        JVal::Null => true,
        JVal::Bool(_) => true,
        JVal::Num(d) => d.len() > 0 && forall|i: int| 0 <= i < d.len() ==> num_char(d[i]),
        JVal::Str(_) => true,
        JVal::Arr(es) => forall|i: int| 0 <= i < es.len() ==> wf(#[trigger] es[i]),
        JVal::Obj(fs) => forall|i: int| 0 <= i < fs.len() ==> wf((#[trigger] fs[i]).1),
    }
}

/// The exact text the encoder emits for a document.
pub open spec fn jtext(v: JVal) -> Seq<char>
    decreases v,
{
    match v {
        JVal::Null => null_text(),
        JVal::Bool(b) => bool_text(b),
        JVal::Num(d) => d,
        JVal::Str(s) => json_string(s),
        JVal::Arr(es) => seq!['['] + arr_body(es) + seq![']'],
        JVal::Obj(fs) => seq!['{'] + obj_body(fs) + seq!['}'],
    }
}

/// The text between an array's brackets: the elements' texts joined by
/// single commas.
pub open spec fn arr_body(es: Seq<JVal>) -> Seq<char>
    decreases es,
{
    if es.len() == 0 {
        Seq::<char>::empty()
    } else if es.len() == 1 {
        jtext(es[0])
    } else {
        jtext(es[0]) + seq![','] + arr_body(es.drop_first())
    }
}

/// The text between an object's brackets: `"key":value` per field, joined
/// by single commas.
pub open spec fn obj_body(fs: Seq<(Seq<char>, JVal)>) -> Seq<char>
    decreases fs,
{
    if fs.len() == 0 {
        Seq::<char>::empty()
    } else if fs.len() == 1 {
        json_string(fs[0].0) + seq![':'] + jtext(fs[0].1)
    } else {
        json_string(fs[0].0) + seq![':'] + jtext(fs[0].1) + seq![','] + obj_body(fs.drop_first())
    }
}

/// The characters a writer's field calls append for the fields `fs` in
/// call order, starting from the comma state `first`: each call contributes
/// exactly the `field_text` of its contract.
#[verifier::opaque]
pub open spec fn entries_text(fs: Seq<(Seq<char>, JVal)>, first: bool) -> Seq<char>
    decreases fs,
{
    if fs.len() == 0 {
        Seq::<char>::empty()
    } else {
        crate::writer::field_text(first, fs[0].0, jtext(fs[0].1)) + entries_text(
            fs.drop_first(),
            false,
        )
    }
}

/// The characters a writer's element calls append for the elements `es` in
/// call order, starting from the comma state `first`.
#[verifier::opaque]
pub open spec fn elements_text(es: Seq<JVal>, first: bool) -> Seq<char>
    decreases es,
{
    if es.len() == 0 {
        Seq::<char>::empty()
    } else {
        crate::writer::element_text(first, jtext(es[0])) + elements_text(es.drop_first(), false)
    }
}

/// The number of separator commas among `n` entries: one fewer than the
/// entries, and none for an empty or single-entry scope.
pub open spec fn seps(n: nat) -> nat {
    if n == 0 {
        0
    } else {
        (n - 1) as nat
    }
}

/// Scanner state: bracket depth outside string literals, the lowest depth
/// ever reached by a closing bracket, whether the scan stands inside a
/// string literal (and right after its escaping backslash), and the number
/// of commas seen at depth one outside string literals.
pub struct ScanState {
    pub depth: int,
    pub low: int,
    pub in_str: bool,
    pub esc: bool,
    pub commas: int,
}

/// The scanner's initial state, before any character of a document.
pub open spec fn scan_init() -> ScanState {
    ScanState { depth: 0, low: 0, in_str: false, esc: false, commas: 0 }
}

/// One scanner step.  Inside a string literal only the backslash and the
/// closing quote matter; outside, brackets move the depth, a quote opens a
/// literal, and a comma at depth one is counted.
pub open spec fn scan_char(st: ScanState, c: char) -> ScanState {
    if st.in_str {
        if st.esc {
            ScanState { esc: false, ..st }
        } else if c == '\\' {
            ScanState { esc: true, ..st }
        } else if c == '"' {
            ScanState { in_str: false, ..st }
        } else {
            st
        }
    } else {
        if c == '{' || c == '[' {
            ScanState { depth: st.depth + 1, ..st }
        } else if c == '}' || c == ']' {
            ScanState {
                depth: st.depth - 1,
                low: if st.depth - 1 < st.low {
                    st.depth - 1
                } else {
                    st.low
                },
                ..st
            }
        } else if c == '"' {
            ScanState { in_str: true, esc: false, ..st }
        } else if c == ',' && st.depth == 1 {
            ScanState { commas: st.commas + 1, ..st }
        } else {
            st
        }
    }
}

/// The scanner folded over a text fragment, left to right.
pub open spec fn scan(st: ScanState, s: Seq<char>) -> ScanState
    decreases s.len(),
{
    if s.len() == 0 {
        st
    } else {
        scan(scan_char(st, s[0]), s.drop_first())
    }
}

} // verus!
