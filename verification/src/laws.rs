//! The library's laws: what holds of every document the encoder can emit.
//!
//! The first group shows that escaping loses nothing: a conformant JSON
//! parser's reading of an emitted string literal is the input string.
//! The second group runs the structural scanner of [`crate::model`] over the
//! text of any well-formed document and shows that brackets balance, nesting
//! never underflows, and each scope separates its entries with exactly one
//! comma fewer than it has entries.

use vstd::prelude::*;
use crate::parse::{
    delimited,
    num_run,
    parse_document,
    parse_elements,
    parse_members,
    parse_value,
};
use crate::model::{
    arr_body,
    elements_text,
    entries_text,
    jtext,
    num_char,
    obj_body,
    scan,
    scan_char,
    scan_init,
    seps,
    wf,
    JVal,
    ScanState,
};
use crate::text::{
    cons_first,
    escape_char,
    escape_seq,
    hex_digit_char,
    hex_val,
    is_control,
    is_hex,
    json_string,
    parse_string_lit,
    take_string_body,
};

verus! {

// ------------------------------------------------------------------
// Decoding: escaping is invisible on the decoded side.
// ------------------------------------------------------------------
/// The uppercase hexadecimal digits decode to the value they were made
/// from.
proof fn lemma_hex_digit_inverse(n: u8)
    requires
        n < 16,
    ensures
        is_hex(hex_digit_char(n)),
        hex_val(hex_digit_char(n)) == n,
{
}

/// Decoding consumes one escaped character from the front: whatever
/// `escape_char` emitted for `c`, a parser reads it back as exactly `c`
/// and goes on with the rest.
proof fn lemma_take_body_escape_char(c: char, t: Seq<char>)
    ensures
        take_string_body(escape_char(c) + t) == cons_first(c, take_string_body(t)),
{
    let e = escape_char(c) + t;
    if c == '\\' || c == '"' || c == '\n' || c == '\r' || c == '\t' {
        assert(e[0] == '\\');
        assert(e.skip(2) =~= t);
    } else if is_control(c) {
        let v = c as u32;
        assert(v <= 0x9F);
        lemma_hex_digit_inverse((v / 16) as u8);
        lemma_hex_digit_inverse((v % 16) as u8);
        assert(e[0] == '\\');
        assert(e[1] == 'u');
        assert(e[2] == '0');
        assert(e[3] == '0');
        assert(e[4] == hex_digit_char((v / 16) as u8));
        assert(e[5] == hex_digit_char((v % 16) as u8));
        assert(e.skip(6) =~= t);
        let n = 4096 * hex_val(e[2]) + 256 * hex_val(e[3]) + 16 * hex_val(e[4]) + hex_val(e[5]);
        assert(16 * ((v as int) / 16) + (v as int) % 16 == v as int) by (nonlinear_arith);
        assert(n == v as int);
        assert(n as char == c);
    } else {
        assert(e[0] == c);
        assert(e.skip(1) =~= t);
        assert(!((c as u32) < 0x20));
    }
}

/// Law: string escaping is lossless and the closing quote is found exactly
/// where the encoder put it.  Reading a string body from the escaped text
/// followed by a quote and anything else decodes the input string and
/// leaves exactly that rest.
pub proof fn lemma_escape_round_trip(s: Seq<char>, r: Seq<char>)
    ensures
        take_string_body(escape_seq(s) + seq!['"'] + r) == Some((s, r)),
    decreases s.len(),
{
    if s.len() == 0 {
        assert(escape_seq(s) + seq!['"'] + r =~= seq!['"'] + r);
        assert((seq!['"'] + r)[0] == '"');
        assert((seq!['"'] + r).skip(1) =~= r);
        assert(Seq::<char>::empty() =~= s);
    } else {
        lemma_escape_round_trip(s.drop_first(), r);
        assert(escape_seq(s) + seq!['"'] + r =~= escape_char(s[0]) + (escape_seq(s.drop_first())
            + seq!['"'] + r));
        lemma_take_body_escape_char(s[0], escape_seq(s.drop_first()) + seq!['"'] + r);
        assert(seq![s[0]] + s.drop_first() =~= s);
    }
}

/// Law: the emitted string literal round-trips.  A conformant parser's
/// reading of `json_string(s)` — enter at the quote, decode until the
/// closing quote — is `s` itself, for every input string.
pub proof fn lemma_string_literal_round_trip(s: Seq<char>)
    ensures
        parse_string_lit(json_string(s)) == Some(s),
{
    let t = json_string(s);
    assert(t[0] == '"');
    assert(t.skip(1) =~= escape_seq(s) + seq!['"'] + Seq::<char>::empty());
    lemma_escape_round_trip(s, Seq::<char>::empty());
}

// ------------------------------------------------------------------
// The document round trip: parsing an emitted document recovers the
// value model it was emitted from.
// ------------------------------------------------------------------
/// Every emitted value's text is nonempty and starts with a character that
/// the parser dispatches on — never a separator or a closer.
proof fn lemma_jtext_starts(v: JVal)
    requires
        wf(v),
    ensures
        jtext(v).len() >= 1,
        jtext(v)[0] == 'n' || jtext(v)[0] == 't' || jtext(v)[0] == 'f' || jtext(v)[0] == '"'
            || jtext(v)[0] == '[' || jtext(v)[0] == '{' || num_char(jtext(v)[0]),
{
    match v {
        JVal::Null => {
            assert(jtext(v)[0] == 'n');
        },
        JVal::Bool(b) => {
            if b {
                assert(jtext(v)[0] == 't');
            } else {
                assert(jtext(v)[0] == 'f');
            }
        },
        JVal::Num(d) => {
            assert(num_char(d[0]));
        },
        JVal::Str(s) => {
            assert(jtext(v)[0] == '"');
        },
        JVal::Arr(es) => {
            assert(jtext(v)[0] == '[');
        },
        JVal::Obj(fs) => {
            assert(jtext(v)[0] == '{');
        },
    }
}

/// A greedy number token over a number rendering followed by a delimiter
/// is exactly the rendering.
proof fn lemma_num_run(d: Seq<char>, r: Seq<char>)
    requires
        forall|i: int| 0 <= i < d.len() ==> num_char(d[i]),
        r.len() == 0 || !num_char(r[0]),
    ensures
        num_run(d + r) == d.len(),
    decreases d.len(),
{
    if d.len() == 0 {
        assert(d + r =~= r);
    } else {
        assert((d + r)[0] == d[0]);
        assert((d + r).drop_first() =~= d.drop_first() + r);
        assert forall|i: int| 0 <= i < d.drop_first().len() implies num_char(
            d.drop_first()[i],
        ) by {
            assert(d.drop_first()[i] == d[i + 1]);
        }
        lemma_num_run(d.drop_first(), r);
    }
}

/// Reading one value out of its emitted text: for any well-formed value
/// and any delimited rest, the parser returns exactly that value and that
/// rest.
#[verifier::rlimit(60)]
proof fn lemma_parse_jtext(v: JVal, r: Seq<char>)
    requires
        wf(v),
        delimited(r),
    ensures
        parse_value(jtext(v) + r) == Some((v, r)),
    decreases v,
{
    let t = jtext(v) + r;
    match v {
        JVal::Null => {
            assert(t[0] == 'n' && t[1] == 'u' && t[2] == 'l' && t[3] == 'l');
            assert(t.skip(4) =~= r);
        },
        JVal::Bool(b) => {
            if b {
                assert(t[0] == 't' && t[1] == 'r' && t[2] == 'u' && t[3] == 'e');
                assert(t.skip(4) =~= r);
            } else {
                assert(t[0] == 'f' && t[1] == 'a' && t[2] == 'l' && t[3] == 's' && t[4] == 'e');
                assert(t.skip(5) =~= r);
            }
        },
        JVal::Num(d) => {
            assert(t[0] == d[0] && num_char(d[0]));
            lemma_num_run(d, r);
            assert(t.take(d.len() as int) =~= d);
            assert(t.skip(d.len() as int) =~= r);
        },
        JVal::Str(s) => {
            assert(t[0] == '"');
            assert(t.skip(1) =~= escape_seq(s) + seq!['"'] + r);
            lemma_escape_round_trip(s, r);
        },
        JVal::Arr(es) => {
            assert(t[0] == '[');
            if es.len() == 0 {
                assert(t =~= seq!['[', ']'] + r);
                assert(t[1] == ']');
                assert(t.skip(2) =~= r);
                assert(es =~= Seq::<JVal>::empty());
            } else {
                lemma_jtext_starts(es[0]);
                assert(arr_body(es)[0] == jtext(es[0])[0]);
                assert(t[1] == arr_body(es)[0]);
                assert(t[1] != ']');
                assert(t.skip(1) =~= arr_body(es) + seq![']'] + r);
                lemma_parse_elements(es, r);
            }
        },
        JVal::Obj(fs) => {
            assert(t[0] == '{');
            if fs.len() == 0 {
                assert(t =~= seq!['{', '}'] + r);
                assert(t[1] == '}');
                assert(t.skip(2) =~= r);
                assert(fs =~= Seq::<(Seq<char>, JVal)>::empty());
            } else {
                assert(obj_body(fs)[0] == '"');
                assert(t[1] == obj_body(fs)[0]);
                assert(t.skip(1) =~= obj_body(fs) + seq!['}'] + r);
                lemma_parse_members(fs, r);
            }
        },
    }
}

/// Reading a nonempty element list out of its emitted text, up to and
/// including the closing bracket.
#[verifier::rlimit(60)]
proof fn lemma_parse_elements(es: Seq<JVal>, r: Seq<char>)
    requires
        es.len() >= 1,
        forall|i: int| 0 <= i < es.len() ==> wf(#[trigger] es[i]),
    ensures
        parse_elements(arr_body(es) + seq![']'] + r) == Some((es, r)),
    decreases es,
{
    let t = arr_body(es) + seq![']'] + r;
    if es.len() == 1 {
        let rest = seq![']'] + r;
        assert(t =~= jtext(es[0]) + rest);
        lemma_parse_jtext(es[0], rest);
        assert(rest[0] == ']');
        assert(rest.skip(1) =~= r);
        assert(seq![es[0]] =~= es);
    } else {
        let rest = seq![','] + arr_body(es.drop_first()) + seq![']'] + r;
        assert(t =~= jtext(es[0]) + rest);
        lemma_parse_jtext(es[0], rest);
        assert(rest[0] == ',');
        lemma_jtext_starts(es[0]);
        assert(rest.skip(1).len() < t.len());
        assert(rest.skip(1) =~= arr_body(es.drop_first()) + seq![']'] + r);
        assert forall|i: int| 0 <= i < es.drop_first().len() implies wf(
            #[trigger] es.drop_first()[i],
        ) by {
            assert(es.drop_first()[i] == es[i + 1]);
        }
        lemma_parse_elements(es.drop_first(), r);
        assert(seq![es[0]] + es.drop_first() =~= es);
    }
}

/// Reading a nonempty member list out of its emitted text, up to and
/// including the closing brace.
#[verifier::rlimit(60)]
proof fn lemma_parse_members(fs: Seq<(Seq<char>, JVal)>, r: Seq<char>)
    requires
        fs.len() >= 1,
        forall|i: int| 0 <= i < fs.len() ==> wf((#[trigger] fs[i]).1),
    ensures
        parse_members(obj_body(fs) + seq!['}'] + r) == Some((fs, r)),
    decreases fs,
{
    let t = obj_body(fs) + seq!['}'] + r;
    let key = fs[0].0;
    let tail2 = if fs.len() == 1 {
        seq!['}'] + r
    } else {
        seq![','] + obj_body(fs.drop_first()) + seq!['}'] + r
    };
    let rest1 = seq![':'] + jtext(fs[0].1) + tail2;
    assert(t[0] == '"');
    assert(t.skip(1) =~= escape_seq(key) + seq!['"'] + rest1);
    lemma_escape_round_trip(key, rest1);
    assert(rest1[0] == ':');
    assert(rest1.skip(1).len() < t.len());
    assert(rest1.skip(1) =~= jtext(fs[0].1) + tail2);
    lemma_parse_jtext(fs[0].1, tail2);
    assert(fs[0] == (fs[0].0, fs[0].1));
    if fs.len() == 1 {
        assert(tail2[0] == '}');
        assert(tail2.skip(1) =~= r);
        assert(seq![fs[0]] =~= fs);
    } else {
        assert(tail2[0] == ',');
        assert(tail2.skip(1).len() < t.len());
        assert(tail2.skip(1) =~= obj_body(fs.drop_first()) + seq!['}'] + r);
        assert forall|i: int| 0 <= i < fs.drop_first().len() implies wf(
            (#[trigger] fs.drop_first()[i]).1,
        ) by {
            assert(fs.drop_first()[i] == fs[i + 1]);
        }
        lemma_parse_members(fs.drop_first(), r);
        assert(seq![fs[0]] + fs.drop_first() =~= fs);
    }
}

/// Law: the document round-trips.  For every well-formed document model,
/// a conformant parser's reading of the emitted text is exactly that
/// document: same structure, same field order, same keys, same decoded
/// strings, same number renderings.
pub proof fn lemma_document_round_trip(v: JVal)
    requires
        wf(v),
    ensures
        parse_document(jtext(v)) == Some(v),
{
    lemma_parse_jtext(v, Seq::<char>::empty());
    assert(jtext(v) + Seq::<char>::empty() =~= jtext(v));
}

// ------------------------------------------------------------------
// The comma rule: what the writers' per-call contracts append joins
// into the document model's body.
// ------------------------------------------------------------------
/// With the first entry already written, every remaining field call leads
/// with its separator comma.
proof fn lemma_entries_text_later(fs: Seq<(Seq<char>, JVal)>)
    requires
        fs.len() >= 1,
    ensures
        entries_text(fs, false) == seq![','] + obj_body(fs),
    decreases fs,
{
    reveal_with_fuel(entries_text, 2);
    if fs.len() == 1 {
        assert(entries_text(fs.drop_first(), false) =~= Seq::<char>::empty());
        assert(entries_text(fs, false) =~= seq![','] + obj_body(fs));
    } else {
        lemma_entries_text_later(fs.drop_first());
        assert(entries_text(fs, false) =~= seq![','] + obj_body(fs));
    }
}

/// Law: the object writer's comma rule reproduces the model.  The texts
/// its field calls append in order — the first with no separator, every
/// later one with a single leading comma — concatenate to exactly the
/// comma-joined body of the implied object.
pub proof fn lemma_object_entries_join(fs: Seq<(Seq<char>, JVal)>)
    ensures
        entries_text(fs, true) == obj_body(fs),
    decreases fs,
{
    reveal_with_fuel(entries_text, 2);
    if fs.len() == 0 {
        assert(entries_text(fs, true) =~= obj_body(fs));
    } else if fs.len() == 1 {
        assert(entries_text(fs.drop_first(), false) =~= Seq::<char>::empty());
        assert(entries_text(fs, true) =~= obj_body(fs));
    } else {
        lemma_entries_text_later(fs.drop_first());
        assert(entries_text(fs, true) =~= obj_body(fs));
    }
}

/// With the first entry already written, every remaining element call
/// leads with its separator comma.
proof fn lemma_elements_text_later(es: Seq<JVal>)
    requires
        es.len() >= 1,
    ensures
        elements_text(es, false) == seq![','] + arr_body(es),
    decreases es,
{
    reveal_with_fuel(elements_text, 2);
    if es.len() == 1 {
        assert(elements_text(es.drop_first(), false) =~= Seq::<char>::empty());
        assert(elements_text(es, false) =~= seq![','] + arr_body(es));
    } else {
        lemma_elements_text_later(es.drop_first());
        assert(elements_text(es, false) =~= seq![','] + arr_body(es));
    }
}

/// Law: the array writer's comma rule reproduces the model, as
/// [`lemma_object_entries_join`] does for objects.
pub proof fn lemma_array_elements_join(es: Seq<JVal>)
    ensures
        elements_text(es, true) == arr_body(es),
    decreases es,
{
    reveal_with_fuel(elements_text, 2);
    if es.len() == 0 {
        assert(elements_text(es, true) =~= arr_body(es));
    } else if es.len() == 1 {
        assert(elements_text(es.drop_first(), false) =~= Seq::<char>::empty());
        assert(elements_text(es, true) =~= arr_body(es));
    } else {
        lemma_elements_text_later(es.drop_first());
        assert(elements_text(es, true) =~= arr_body(es));
    }
}

// ------------------------------------------------------------------
// The structural scanner over emitted documents.
// ------------------------------------------------------------------
/// Scanning a concatenation scans the parts in order.
proof fn lemma_scan_append(st: ScanState, a: Seq<char>, b: Seq<char>)
    ensures
        scan(st, a + b) == scan(scan(st, a), b),
    decreases a.len(),
{
    if a.len() == 0 {
        assert(a + b =~= b);
    } else {
        assert((a + b)[0] == a[0]);
        assert((a + b).drop_first() =~= a.drop_first() + b);
        lemma_scan_append(scan_char(st, a[0]), a.drop_first(), b);
    }
}

/// Scanning one character.
proof fn lemma_scan1(st: ScanState, c: char)
    ensures
        scan(st, seq![c]) == scan_char(st, c),
{
    assert(seq![c].drop_first() =~= Seq::<char>::empty());
    assert(scan(scan_char(st, c), Seq::<char>::empty()) == scan_char(st, c));
}

/// Scanning two characters.
proof fn lemma_scan2(st: ScanState, a: char, b: char)
    ensures
        scan(st, seq![a, b]) == scan_char(scan_char(st, a), b),
{
    assert(seq![a, b].drop_first() =~= seq![b]);
    lemma_scan1(scan_char(st, a), b);
}

/// A text whose every character leaves the state `st` unchanged scans to
/// `st`.
proof fn lemma_scan_units(st: ScanState, s: Seq<char>)
    requires
        forall|i: int| 0 <= i < s.len() ==> scan_char(st, s[i]) == st,
    ensures
        scan(st, s) == st,
    decreases s.len(),
{
    if s.len() > 0 {
        assert(scan_char(st, s[0]) == st);
        assert forall|i: int| 0 <= i < s.drop_first().len() implies scan_char(
            st,
            s.drop_first()[i],
        ) == st by {
            assert(s.drop_first()[i] == s[i + 1]);
        }
        lemma_scan_units(st, s.drop_first());
    }
}

/// Inside a string literal, one emitted escape leaves the scanner where it
/// was: it never ends the literal early.
proof fn lemma_scan_escape_char(st: ScanState, c: char)
    requires
        st.in_str,
        !st.esc,
    ensures
        scan(st, escape_char(c)) == st,
{
    let e = escape_char(c);
    if c == '\\' || c == '"' || c == '\n' || c == '\r' || c == '\t' {
        lemma_scan2(st, e[0], e[1]);
        assert(e =~= seq![e[0], e[1]]);
    } else if is_control(c) {
        let h = hex_digit_char(((c as u32) / 16) as u8);
        let l = hex_digit_char(((c as u32) % 16) as u8);
        let a = seq!['\\', 'u'];
        let b = seq!['0', '0'];
        let d = seq![h, l];
        assert(e =~= a + b + d);
        lemma_scan_append(st, a + b, d);
        lemma_scan_append(st, a, b);
        lemma_scan2(st, '\\', 'u');
        lemma_scan2(st, '0', '0');
        assert(h != '\\' && h != '"');
        assert(l != '\\' && l != '"');
        lemma_scan2(st, h, l);
    } else {
        lemma_scan1(st, c);
        assert(e =~= seq![c]);
    }
}

/// Inside a string literal, the whole escaped body leaves the scanner where
/// it was.
proof fn lemma_scan_escape_seq(st: ScanState, s: Seq<char>)
    requires
        st.in_str,
        !st.esc,
    ensures
        scan(st, escape_seq(s)) == st,
    decreases s.len(),
{
    if s.len() > 0 {
        lemma_scan_append(st, escape_char(s[0]), escape_seq(s.drop_first()));
        lemma_scan_escape_char(st, s[0]);
        lemma_scan_escape_seq(st, s.drop_first());
    }
}

/// An emitted string literal is structurally inert: the scanner enters the
/// literal at its opening quote, ignores everything inside, and leaves at
/// the closing quote with its state unchanged.
proof fn lemma_scan_json_string(st: ScanState, s: Seq<char>)
    requires
        !st.in_str,
        !st.esc,
    ensures
        scan(st, json_string(s)) == st,
{
    let st1 = scan_char(st, '"');
    assert(json_string(s) =~= seq!['"'] + escape_seq(s) + seq!['"']);
    lemma_scan_append(st, seq!['"'] + escape_seq(s), seq!['"']);
    lemma_scan_append(st, seq!['"'], escape_seq(s));
    lemma_scan1(st, '"');
    lemma_scan_escape_seq(st1, s);
    lemma_scan1(st1, '"');
}

/// The texts of `null`, `true` and `false` and number renderings move the
/// scanner nowhere: none of their characters is a bracket, a quote or a
/// comma.
proof fn lemma_scan_scalar_units(st: ScanState, s: Seq<char>)
    requires
        !st.in_str,
        forall|i: int|
            0 <= i < s.len() ==> (s[i] != '{' && s[i] != '[' && s[i] != '}' && s[i] != ']' && s[i]
                != '"' && s[i] != ','),
    ensures
        scan(st, s) == st,
{
    assert forall|i: int| 0 <= i < s.len() implies scan_char(st, s[i]) == st by {}
    lemma_scan_units(st, s);
}

/// The text of any well-formed value, scanned from a position strictly
/// inside the document's outer brackets, returns the scanner to exactly the
/// state it started in: nested brackets close what they open, and nothing
/// inside the value touches the depth-one comma count.
proof fn lemma_scan_jtext(st: ScanState, v: JVal)
    requires
        wf(v),
        !st.in_str,
        !st.esc,
        st.depth >= 1,
        st.low <= st.depth,
    ensures
        scan(st, jtext(v)) == st,
    decreases v,
{
    match v {
        JVal::Null => {
            lemma_scan_scalar_units(st, jtext(v));
        },
        JVal::Bool(_) => {
            lemma_scan_scalar_units(st, jtext(v));
        },
        JVal::Num(d) => {
            assert forall|i: int| 0 <= i < d.len() implies (d[i] != '{' && d[i] != '[' && d[i]
                != '}' && d[i] != ']' && d[i] != '"' && d[i] != ',') by {
                assert(num_char(d[i]));
            }
            lemma_scan_scalar_units(st, d);
        },
        JVal::Str(s) => {
            lemma_scan_json_string(st, s);
        },
        JVal::Arr(es) => {
            let st1 = scan_char(st, '[');
            lemma_scan_append(st, seq!['['] + arr_body(es), seq![']']);
            lemma_scan_append(st, seq!['['], arr_body(es));
            lemma_scan1(st, '[');
            lemma_scan_arr_body_deep(st1, es);
            lemma_scan1(st1, ']');
        },
        JVal::Obj(fs) => {
            let st1 = scan_char(st, '{');
            lemma_scan_append(st, seq!['{'] + obj_body(fs), seq!['}']);
            lemma_scan_append(st, seq!['{'], obj_body(fs));
            lemma_scan1(st, '{');
            lemma_scan_obj_body_deep(st1, fs);
            lemma_scan1(st1, '}');
        },
    }
}

/// The body of a nested array — its depth is two or more — returns the
/// scanner to where it started; its separator commas lie too deep to be
/// counted.
proof fn lemma_scan_arr_body_deep(st: ScanState, es: Seq<JVal>)
    requires
        forall|i: int| 0 <= i < es.len() ==> wf(#[trigger] es[i]),
        !st.in_str,
        !st.esc,
        st.depth >= 2,
        st.low <= st.depth,
    ensures
        scan(st, arr_body(es)) == st,
    decreases es,
{
    if es.len() == 0 {
    } else if es.len() == 1 {
        lemma_scan_jtext(st, es[0]);
    } else {
        lemma_scan_append(st, jtext(es[0]) + seq![','], arr_body(es.drop_first()));
        lemma_scan_append(st, jtext(es[0]), seq![',']);
        assert(arr_body(es) =~= (jtext(es[0]) + seq![',']) + arr_body(es.drop_first()));
        lemma_scan_jtext(st, es[0]);
        lemma_scan1(st, ',');
        assert forall|i: int| 0 <= i < es.drop_first().len() implies wf(
            #[trigger] es.drop_first()[i],
        ) by {
            assert(es.drop_first()[i] == es[i + 1]);
        }
        lemma_scan_arr_body_deep(st, es.drop_first());
    }
}

/// The body of a nested object likewise returns the scanner to where it
/// started.
proof fn lemma_scan_obj_body_deep(st: ScanState, fs: Seq<(Seq<char>, JVal)>)
    requires
        forall|i: int| 0 <= i < fs.len() ==> wf((#[trigger] fs[i]).1),
        !st.in_str,
        !st.esc,
        st.depth >= 2,
        st.low <= st.depth,
    ensures
        scan(st, obj_body(fs)) == st,
    decreases fs,
{
    if fs.len() == 0 {
    } else {
        let head = json_string(fs[0].0) + seq![':'] + jtext(fs[0].1);
        lemma_scan_append(st, json_string(fs[0].0) + seq![':'], jtext(fs[0].1));
        lemma_scan_append(st, json_string(fs[0].0), seq![':']);
        lemma_scan_json_string(st, fs[0].0);
        lemma_scan1(st, ':');
        lemma_scan_jtext(st, fs[0].1);
        if fs.len() == 1 {
            assert(obj_body(fs) =~= head);
        } else {
            assert(obj_body(fs) =~= (head + seq![',']) + obj_body(fs.drop_first()));
            lemma_scan_append(st, head + seq![','], obj_body(fs.drop_first()));
            lemma_scan_append(st, head, seq![',']);
            lemma_scan1(st, ',');
            assert forall|i: int| 0 <= i < fs.drop_first().len() implies wf(
                (#[trigger] fs.drop_first()[i]).1,
            ) by {
                assert(fs.drop_first()[i] == fs[i + 1]);
            }
            lemma_scan_obj_body_deep(st, fs.drop_first());
        }
    }
}

/// The body of the outermost array, at depth one: every element leaves the
/// scanner in place, and each separator comma is counted, so the body adds
/// exactly one comma fewer than it has elements.
proof fn lemma_scan_arr_body_top(st: ScanState, es: Seq<JVal>)
    requires
        forall|i: int| 0 <= i < es.len() ==> wf(#[trigger] es[i]),
        !st.in_str,
        !st.esc,
        st.depth == 1,
        st.low <= 1,
    ensures
        scan(st, arr_body(es)) == (ScanState { commas: st.commas + seps(es.len()), ..st }),
    decreases es,
{
    if es.len() == 0 {
        assert((ScanState { commas: st.commas + seps(es.len()), ..st }) == st);
    } else if es.len() == 1 {
        lemma_scan_jtext(st, es[0]);
        assert((ScanState { commas: st.commas + seps(es.len()), ..st }) == st);
    } else {
        let st2 = ScanState { commas: st.commas + 1, ..st };
        lemma_scan_append(st, jtext(es[0]) + seq![','], arr_body(es.drop_first()));
        lemma_scan_append(st, jtext(es[0]), seq![',']);
        assert(arr_body(es) =~= (jtext(es[0]) + seq![',']) + arr_body(es.drop_first()));
        lemma_scan_jtext(st, es[0]);
        lemma_scan1(st, ',');
        assert(scan_char(st, ',') == st2);
        assert forall|i: int| 0 <= i < es.drop_first().len() implies wf(
            #[trigger] es.drop_first()[i],
        ) by {
            assert(es.drop_first()[i] == es[i + 1]);
        }
        lemma_scan_arr_body_top(st2, es.drop_first());
    }
}

/// The body of the outermost object, at depth one: exactly one separator
/// comma per field beyond the first.
proof fn lemma_scan_obj_body_top(st: ScanState, fs: Seq<(Seq<char>, JVal)>)
    requires
        forall|i: int| 0 <= i < fs.len() ==> wf((#[trigger] fs[i]).1),
        !st.in_str,
        !st.esc,
        st.depth == 1,
        st.low <= 1,
    ensures
        scan(st, obj_body(fs)) == (ScanState { commas: st.commas + seps(fs.len()), ..st }),
    decreases fs,
{
    if fs.len() == 0 {
        assert((ScanState { commas: st.commas + seps(fs.len()), ..st }) == st);
    } else {
        let head = json_string(fs[0].0) + seq![':'] + jtext(fs[0].1);
        lemma_scan_append(st, json_string(fs[0].0) + seq![':'], jtext(fs[0].1));
        lemma_scan_append(st, json_string(fs[0].0), seq![':']);
        lemma_scan_json_string(st, fs[0].0);
        lemma_scan1(st, ':');
        lemma_scan_jtext(st, fs[0].1);
        if fs.len() == 1 {
            assert(obj_body(fs) =~= head);
            assert((ScanState { commas: st.commas + seps(fs.len()), ..st }) == st);
        } else {
            let st2 = ScanState { commas: st.commas + 1, ..st };
            assert(obj_body(fs) =~= (head + seq![',']) + obj_body(fs.drop_first()));
            lemma_scan_append(st, head + seq![','], obj_body(fs.drop_first()));
            lemma_scan_append(st, head, seq![',']);
            lemma_scan1(st, ',');
            assert(scan_char(st, ',') == st2);
            assert forall|i: int| 0 <= i < fs.drop_first().len() implies wf(
                (#[trigger] fs.drop_first()[i]).1,
            ) by {
                assert(fs.drop_first()[i] == fs[i + 1]);
            }
            lemma_scan_obj_body_top(st2, fs.drop_first());
        }
    }
}

/// Law: an emitted array document is structurally valid and separates its
/// elements with exactly one comma fewer than it has elements.  Scanning
/// its text from the initial state ends at depth zero with the depth never
/// having gone below zero, outside any string literal, having counted
/// `seps(N)` commas at depth one — `N − 1` for `N ≥ 1`, none for an empty
/// array.
pub proof fn lemma_array_document_structure(es: Seq<JVal>)
    requires
        forall|i: int| 0 <= i < es.len() ==> wf(#[trigger] es[i]),
    ensures
        scan(scan_init(), jtext(JVal::Arr(es))) == (ScanState {
            depth: 0,
            low: 0,
            in_str: false,
            esc: false,
            commas: seps(es.len()) as int,
        }),
{
    let st0 = scan_init();
    let st1 = scan_char(st0, '[');
    lemma_scan_append(st0, seq!['['] + arr_body(es), seq![']']);
    lemma_scan_append(st0, seq!['['], arr_body(es));
    lemma_scan1(st0, '[');
    lemma_scan_arr_body_top(st1, es);
    lemma_scan1(ScanState { commas: st1.commas + seps(es.len()), ..st1 }, ']');
}

/// Law: an emitted object document is structurally valid and separates its
/// fields with exactly one comma fewer than it has fields.
pub proof fn lemma_object_document_structure(fs: Seq<(Seq<char>, JVal)>)
    requires
        forall|i: int| 0 <= i < fs.len() ==> wf((#[trigger] fs[i]).1),
    ensures
        scan(scan_init(), jtext(JVal::Obj(fs))) == (ScanState {
            depth: 0,
            low: 0,
            in_str: false,
            esc: false,
            commas: seps(fs.len()) as int,
        }),
{
    let st0 = scan_init();
    let st1 = scan_char(st0, '{');
    lemma_scan_append(st0, seq!['{'] + obj_body(fs), seq!['}']);
    lemma_scan_append(st0, seq!['{'], obj_body(fs));
    lemma_scan1(st0, '{');
    lemma_scan_obj_body_top(st1, fs);
    lemma_scan1(ScanState { commas: st1.commas + seps(fs.len()), ..st1 }, '}');
}

/// Law: every well-formed document's text is bracket-balanced and properly
/// nested.  Scanning it from the initial state ends at depth zero, the
/// depth never dips below zero, and the scan does not end inside a string
/// literal.
pub proof fn lemma_document_brackets_balanced(v: JVal)
    requires
        wf(v),
    ensures
        scan(scan_init(), jtext(v)).depth == 0,
        scan(scan_init(), jtext(v)).low == 0,
        !scan(scan_init(), jtext(v)).in_str,
        !scan(scan_init(), jtext(v)).esc,
{
    let st0 = scan_init();
    match v {
        JVal::Null => {
            lemma_scan_scalar_units(st0, jtext(v));
        },
        JVal::Bool(_) => {
            lemma_scan_scalar_units(st0, jtext(v));
        },
        JVal::Num(d) => {
            assert forall|i: int| 0 <= i < d.len() implies (d[i] != '{' && d[i] != '[' && d[i]
                != '}' && d[i] != ']' && d[i] != '"' && d[i] != ',') by {
                assert(num_char(d[i]));
            }
            lemma_scan_scalar_units(st0, d);
        },
        JVal::Str(s) => {
            lemma_scan_json_string(st0, s);
        },
        JVal::Arr(es) => {
            lemma_array_document_structure(es);
        },
        JVal::Obj(fs) => {
            lemma_object_document_structure(fs);
        },
    }
}

} // verus!
