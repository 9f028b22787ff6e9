//! Executable value encoders: the primitive appends that every writer is
//! built from, and the string-escaping algorithm.

use vstd::prelude::*;
use crate::text::{
    bool_text,
    escape_char,
    escape_seq,
    hex_digit_char,
    is_control,
    json_string,
    lemma_escape_seq_plain,
    lemma_escape_seq_push,
    null_text,
    plain_char,
};

verus! {

/// Relies on `String::push`: appends the given character to the end of the
/// string.
#[verifier::external_body]
pub(crate) fn push_char(buf: &mut String, c: char)
    ensures
        final(buf)@ == old(buf)@ + seq![c],
{
    buf.push(c);
}

/// The uppercase hexadecimal digit for a value below sixteen.
fn hex_digit(n: u8) -> (c: char)
    requires
        n < 16,
    ensures
        c == hex_digit_char(n),
{
    match n {
        0 => '0',
        1 => '1',
        2 => '2',
        3 => '3',
        4 => '4',
        5 => '5',
        6 => '6',
        7 => '7',
        8 => '8',
        9 => '9',
        10 => 'A',
        11 => 'B',
        12 => 'C',
        13 => 'D',
        14 => 'E',
        _ => 'F',
    }
}

/// Appends the four characters of the JSON literal `null`.
pub fn encode_null(buf: &mut String)
    ensures
        final(buf)@ == old(buf)@ + null_text(),
{
    proof {
        reveal_strlit("null");
        assert("null"@ =~= null_text());
    }
    buf.append("null");
}

/// Appends `true` or `false`.
pub fn encode_bool(buf: &mut String, value: bool)
    ensures
        final(buf)@ == old(buf)@ + bool_text(value),
{
    if value {
        proof {
            reveal_strlit("true");
            assert("true"@ =~= bool_text(true));
        }
        buf.append("true");
    } else {
        proof {
            reveal_strlit("false");
            assert("false"@ =~= bool_text(false));
        }
        buf.append("false");
    }
}

/// Appends the decimal rendering of a number verbatim, with no quoting and
/// no escaping.  The caller supplies the rendering; the standard formatter's
/// shortest round-trippable decimal form of a float is the intended one.
pub fn encode_number(buf: &mut String, digits: &str)
    ensures
        final(buf)@ == old(buf)@ + digits@,
{
    buf.append(digits);
}

/// True when every character of `s` may pass through unescaped: the fast
/// path of the string encoder.
fn all_plain(s: &str) -> (r: bool)
    ensures
        r == forall|i: int| 0 <= i < s@.len() ==> plain_char(s@[i]),
{
    let n = s.unicode_len();
    let mut i: usize = 0;
    while i < n
        invariant
            0 <= i <= n,
            n == s@.len(),
            forall|j: int| 0 <= j < i ==> plain_char(s@[j]),
        decreases n - i,
    {
        let c = s.get_char(i);
        let v = c as u32;
        if v < 0x20 || v > 0x7E || c == '"' || c == '\\' {
            assert(!plain_char(s@[i as int]));
            return false;
        }
        i += 1;
    }
    true
}

/// Appends `escape_char(c)` for one character of the input.
fn encode_escaped_char(buf: &mut String, c: char)
    ensures
        final(buf)@ == old(buf)@ + escape_char(c),
{
    let v = c as u32;
    if c == '\\' {
        push_char(buf, '\\');
        push_char(buf, '\\');
        assert(buf@ =~= old(buf)@ + escape_char(c));
    } else if c == '"' {
        push_char(buf, '\\');
        push_char(buf, '"');
        assert(buf@ =~= old(buf)@ + escape_char(c));
    } else if c == '\n' {
        push_char(buf, '\\');
        push_char(buf, 'n');
        assert(buf@ =~= old(buf)@ + escape_char(c));
    } else if c == '\r' {
        push_char(buf, '\\');
        push_char(buf, 'r');
        assert(buf@ =~= old(buf)@ + escape_char(c));
    } else if c == '\t' {
        push_char(buf, '\\');
        push_char(buf, 't');
        assert(buf@ =~= old(buf)@ + escape_char(c));
    } else if v < 0x20 || (0x7F <= v && v <= 0x9F) {
        assert(is_control(c));
        push_char(buf, '\\');
        push_char(buf, 'u');
        push_char(buf, '0');
        push_char(buf, '0');
        push_char(buf, hex_digit((v / 16) as u8));
        push_char(buf, hex_digit((v % 16) as u8));
        assert(buf@ =~= old(buf)@ + escape_char(c));
    } else {
        assert(!is_control(c));
        push_char(buf, c);
        assert(buf@ =~= old(buf)@ + escape_char(c));
    }
}

/// Appends the escaped body of `s`, one character at a time.
fn encode_str_slow(buf: &mut String, s: &str)
    ensures
        final(buf)@ == old(buf)@ + escape_seq(s@),
{
    let n = s.unicode_len();
    let mut i: usize = 0;
    while i < n
        invariant
            0 <= i <= n,
            n == s@.len(),
            buf@ == old(buf)@ + escape_seq(s@.take(i as int)),
        decreases n - i,
    {
        let c = s.get_char(i);
        encode_escaped_char(buf, c);
        proof {
            assert(s@.take(i as int + 1) =~= s@.take(i as int).push(s@[i as int]));
            lemma_escape_seq_push(s@.take(i as int), s@[i as int]);
        }
        i += 1;
    }
    proof {
        assert(s@.take(n as int) =~= s@);
    }
}

/// Appends the complete JSON string literal for `s`: a double quote, the
/// escaped body, and a closing double quote.  Input made only of printable
/// ASCII with nothing to escape is appended in one piece.
pub fn encode_str(buf: &mut String, s: &str)
    ensures
        final(buf)@ == old(buf)@ + json_string(s@),
{
    push_char(buf, '"');
    if all_plain(s) {
        proof {
            lemma_escape_seq_plain(s@);
        }
        buf.append(s);
    } else {
        encode_str_slow(buf, s);
    }
    push_char(buf, '"');
    assert(buf@ =~= old(buf)@ + json_string(s@));
}

} // verus!
