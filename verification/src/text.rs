//! Mathematical model of the JSON text fragments that the encoder emits:
//! the literal spellings of `null`, `true` and `false`, and the string
//! escaping function over sequences of characters.

use vstd::prelude::*;

verus! {

/// The four characters of the JSON literal `null`.
pub open spec fn null_text() -> Seq<char> {
    seq!['n', 'u', 'l', 'l']
}

/// The characters of the JSON literal for a boolean.
pub open spec fn bool_text(b: bool) -> Seq<char> {
    if b {
        seq!['t', 'r', 'u', 'e']
    } else {
        seq!['f', 'a', 'l', 's', 'e']
    }
}

/// Control characters that must be escaped as `\u00XX`: the scalar values
/// 0x00..=0x1F together with 0x7F..=0x9F.
pub open spec fn is_control(c: char) -> bool {
    (c as u32) < 0x20 || (0x7F <= (c as u32) && (c as u32) <= 0x9F)
}

/// Characters that pass through the encoder unescaped and are single-byte
/// printable ASCII: everything in 0x20..=0x7E except `"` and `\`.
pub open spec fn plain_char(c: char) -> bool {
    0x20 <= (c as u32) && (c as u32) <= 0x7E && c != '"' && c != '\\'
}

/// The uppercase hexadecimal digit for a value below sixteen.
pub open spec fn hex_digit_char(n: u8) -> char
    recommends
        n < 16,
{
    if n == 0 {
        '0'
    } else if n == 1 {
        '1'
    } else if n == 2 {
        '2'
    } else if n == 3 {
        '3'
    } else if n == 4 {
        '4'
    } else if n == 5 {
        '5'
    } else if n == 6 {
        '6'
    } else if n == 7 {
        '7'
    } else if n == 8 {
        '8'
    } else if n == 9 {
        '9'
    } else if n == 10 {
        'A'
    } else if n == 11 {
        'B'
    } else if n == 12 {
        'C'
    } else if n == 13 {
        'D'
    } else if n == 14 {
        'E'
    } else {
        'F'
    }
}

/// What the escaping algorithm emits for one character of the input, in the
/// priority order of the encoder: backslash, quote, the three named control
/// escapes, `\u00XX` for the remaining control characters, and everything
/// else verbatim.  Scalar values above 0xFF are never escaped.
pub open spec fn escape_char(c: char) -> Seq<char> {
    if c == '\\' {
        seq!['\\', '\\']
    } else if c == '"' {
        seq!['\\', '"']
    } else if c == '\n' {
        seq!['\\', 'n']
    } else if c == '\r' {
        seq!['\\', 'r']
    } else if c == '\t' {
        seq!['\\', 't']
    } else if is_control(c) {
        seq!['\\', 'u', '0', '0', hex_digit_char(((c as u32) / 16) as u8), hex_digit_char(
            ((c as u32) % 16) as u8,
        )]
    } else {
        seq![c]
    }
}

/// The escaped body of a JSON string literal for the input `s`: the
/// concatenation of `escape_char` over its characters.
pub open spec fn escape_seq(s: Seq<char>) -> Seq<char>
    decreases s.len(),
{
    if s.len() == 0 {
        Seq::empty()
    } else {
        escape_char(s[0]) + escape_seq(s.drop_first())
    }
}

/// The complete JSON string literal for `s`: the escaped body wrapped in
/// double quotes.
pub open spec fn json_string(s: Seq<char>) -> Seq<char> {
    seq!['"'] + escape_seq(s) + seq!['"']
}

/// True of the characters a JSON parser accepts as one hexadecimal digit.
pub open spec fn is_hex(c: char) -> bool {
    ('0' <= c && c <= '9') || ('A' <= c && c <= 'F') || ('a' <= c && c <= 'f')
}

/// The value of one hexadecimal digit.
pub open spec fn hex_val(c: char) -> int
    recommends
        is_hex(c),
{
    if '0' <= c && c <= '9' {
        c as u32 - '0' as u32
    } else if 'A' <= c && c <= 'F' {
        c as u32 - 'A' as u32 + 10
    } else {
        c as u32 - 'a' as u32 + 10
    }
}

/// The character a parser substitutes for a two-character escape, if the
/// second character is a legal one.
pub open spec fn escape_code_char(e: char) -> Option<char> {
    if e == '"' {
        Some('"')
    } else if e == '\\' {
        Some('\\')
    } else if e == '/' {
        Some('/')
    } else if e == 'n' {
        Some('\n')
    } else if e == 'r' {
        Some('\r')
    } else if e == 't' {
        Some('\t')
    } else if e == 'b' {
        Some('\u{8}')
    } else if e == 'f' {
        Some('\u{C}')
    } else {
        None
    }
}

/// Prepends one decoded character to a decoding result.
pub open spec fn cons_first(c: char, rest: Option<(Seq<char>, Seq<char>)>) -> Option<
    (Seq<char>, Seq<char>),
> {
    match rest {
        Some(p) => Some((seq![c] + p.0, p.1)),
        None => None,
    }
}

/// How a conformant JSON parser reads a string literal's body, standing
/// just after the opening quote: raw characters stand for themselves, a
/// backslash introduces one of the named escapes or a four-digit `\uXXXX`
/// escape, and the first unescaped quote ends the literal.  The result is
/// the decoded string and the text after the closing quote.  An unescaped
/// control character, an unknown escape, a `\uXXXX` escape naming a
/// surrogate code point, or a missing closing quote is rejected.
pub open spec fn take_string_body(t: Seq<char>) -> Option<(Seq<char>, Seq<char>)>
    decreases t.len(),
{
    if t.len() == 0 {
        None
    } else if t[0] == '"' {
        Some((Seq::<char>::empty(), t.skip(1)))
    } else if t[0] == '\\' {
        if t.len() < 2 {
            None
        } else if t[1] == 'u' {
            if t.len() < 6 {
                None
            } else if is_hex(t[2]) && is_hex(t[3]) && is_hex(t[4]) && is_hex(t[5]) {
                let n = 4096 * hex_val(t[2]) + 256 * hex_val(t[3]) + 16 * hex_val(t[4]) + hex_val(
                    t[5],
                );
                if 0xD800 <= n && n < 0xE000 {
                    None
                } else {
                    cons_first(n as char, take_string_body(t.skip(6)))
                }
            } else {
                None
            }
        } else {
            match escape_code_char(t[1]) {
                Some(c) => cons_first(c, take_string_body(t.skip(2))),
                None => None,
            }
        }
    } else if (t[0] as u32) < 0x20 {
        None
    } else {
        cons_first(t[0], take_string_body(t.skip(1)))
    }
}

/// What a conformant JSON parser makes of a whole string literal: the body
/// between the opening quote and the first unescaped closing quote, decoded,
/// with nothing allowed to follow.
pub open spec fn parse_string_lit(t: Seq<char>) -> Option<Seq<char>> {
    if t.len() >= 1 && t[0] == '"' {
        match take_string_body(t.skip(1)) {
            Some(p) => if p.1.len() == 0 {
                Some(p.0)
            } else {
                None
            },
            None => None,
        }
    } else {
        None
    }
}

/// Escaping distributes over appending one character at the end.
pub proof fn lemma_escape_seq_push(s: Seq<char>, c: char)
    ensures
        escape_seq(s.push(c)) == escape_seq(s) + escape_char(c),
    decreases s.len(),
{
    if s.len() == 0 {
        assert(s.push(c)[0] == c);
        assert(s.push(c).drop_first() =~= Seq::<char>::empty());
        assert(escape_seq(s.push(c)) == escape_char(c) + escape_seq(Seq::<char>::empty()));
        assert(escape_char(c) + Seq::<char>::empty() =~= escape_char(c));
        assert(escape_seq(s) + escape_char(c) =~= escape_char(c));
    } else {
        assert(s.push(c)[0] == s[0]);
        assert(s.push(c).drop_first() =~= s.drop_first().push(c));
        lemma_escape_seq_push(s.drop_first(), c);
        assert(escape_seq(s) + escape_char(c) =~= escape_char(s[0]) + (escape_seq(s.drop_first())
            + escape_char(c)));
    }
}

/// A sequence made only of plain characters escapes to itself.
pub proof fn lemma_escape_seq_plain(s: Seq<char>)
    requires
        forall|i: int| 0 <= i < s.len() ==> plain_char(s[i]),
    ensures
        escape_seq(s) == s,
    decreases s.len(),
{
    if s.len() == 0 {
        assert(escape_seq(s) =~= s);
    } else {
        assert(plain_char(s[0]));
        lemma_escape_seq_plain(s.drop_first());
        assert(escape_seq(s) =~= s);
    }
}

} // verus!
