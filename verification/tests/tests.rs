use write_json::{Array, Object};

#[test]
fn smoke() {
    let mut buf = String::new();

    {
        let mut obj = write_json::object(&mut buf);
        obj.string(&mut buf, "name", "Peter");
        obj.number(&mut buf, "favorite number", &format!("{}", 92.0f64));
        let mut films = obj.array(&mut buf, "films");
        films.string(&mut buf, "Drowning By Numbers");
        films.string(&mut buf, "A Zed & Two Noughts");
        films.end(&mut buf);
        obj.null(&mut buf, "suitcase");
        obj.end(&mut buf);
    }

    assert_eq!(
        buf,
        r#"{"name":"Peter","favorite number":92,"films":["Drowning By Numbers","A Zed & Two Noughts"],"suitcase":null}"#
    )
}

#[test]
fn string_escaping() {
    let mut buf = String::new();
    {
        let mut arr = write_json::array(&mut buf);
        arr.string(&mut buf, "");
        arr.string(&mut buf, "'");
        arr.string(&mut buf, "\"");
        arr.string(&mut buf, "\\");
        arr.string(&mut buf, "hello world");
        arr.string(&mut buf, " \r\n\t\\ \\r\\n\\t");
        arr.string(&mut buf, "\u{e2}\u{a4}\u{11f}\u{178}\u{2dc}\u{201a}");
        arr.string(&mut buf, "\x00\x07\x1F\x20\x7E\x7F\u{80}\u{9f}!");
        arr.string(&mut buf, "\x7F!");
        arr.string(&mut buf, "\u{c4}\u{160}");
        arr.end(&mut buf);
    }
    let strings = buf.replace(|c: char| "[],".contains(c), "\n");
    let expected = "\n\"\"\n\"'\"\n\"\\\"\"\n\"\\\\\"\n\"hello world\"\n\" \\r\\n\\t\\\\ \\\\r\\\\n\\\\t\"\n\"\u{e2}\u{a4}\u{11f}\u{178}\u{2dc}\u{201a}\"\n\"\\u0000\\u0007\\u001F ~\\u007F\\u0080\\u009F!\"\n\"\\u007F!\"\n\"\u{c4}\u{160}\"\n";

    assert_eq!(strings, expected);
}

#[test]
fn empty_scopes() {
    let mut buf = String::new();
    let obj = write_json::object(&mut buf);
    obj.end(&mut buf);
    assert_eq!(buf, "{}");

    let mut buf = String::new();
    let arr = write_json::array(&mut buf);
    arr.end(&mut buf);
    assert_eq!(buf, "[]");
}

#[test]
fn empty_string_element() {
    let mut buf = String::new();
    let mut arr = write_json::array(&mut buf);
    arr.string(&mut buf, "");
    arr.end(&mut buf);
    assert_eq!(buf, r#"[""]"#);
}

#[test]
fn backslash_then_quote() {
    let mut buf = String::new();
    write_json::string(&mut buf, "\\\"");
    assert_eq!(buf, r#""\\\"""#);
}

#[test]
fn control_characters_escaped() {
    let mut buf = String::new();
    write_json::string(&mut buf, "\x00\x07\x1F\x20\x7E\x7F\u{80}\u{9f}!");
    assert_eq!(buf, "\"\\u0000\\u0007\\u001F ~\\u007F\\u0080\\u009F!\"");
}

#[test]
fn top_level_values() {
    let mut buf = String::new();
    write_json::null(&mut buf);
    assert_eq!(buf, "null");

    let mut buf = String::new();
    write_json::bool(&mut buf, true);
    assert_eq!(buf, "true");

    let mut buf = String::new();
    write_json::bool(&mut buf, false);
    assert_eq!(buf, "false");

    let mut buf = String::new();
    write_json::number(&mut buf, &format!("{}", 12.5f64));
    assert_eq!(buf, "12.5");

    let mut buf = String::new();
    write_json::string(&mut buf, "plain");
    assert_eq!(buf, r#""plain""#);
}

#[test]
fn comma_placement() {
    let mut buf = String::new();
    let mut arr = write_json::array(&mut buf);
    arr.null(&mut buf);
    arr.end(&mut buf);
    assert_eq!(buf, "[null]");

    let mut buf = String::new();
    let mut arr = write_json::array(&mut buf);
    arr.bool(&mut buf, true);
    arr.bool(&mut buf, false);
    arr.null(&mut buf);
    arr.end(&mut buf);
    assert_eq!(buf, "[true,false,null]");

    let mut buf = String::new();
    let mut obj = write_json::object(&mut buf);
    obj.number(&mut buf, "a", "1");
    obj.number(&mut buf, "b", "2");
    obj.end(&mut buf);
    assert_eq!(buf, r#"{"a":1,"b":2}"#);
}

#[test]
fn nested_scopes() {
    let mut buf = String::new();
    let mut obj = write_json::object(&mut buf);
    let mut inner = obj.object(&mut buf, "point");
    inner.number(&mut buf, "x", "1");
    inner.number(&mut buf, "y", "2");
    inner.end(&mut buf);
    let mut tags = obj.array(&mut buf, "tags");
    let mut pair = tags.array(&mut buf);
    pair.string(&mut buf, "a");
    pair.end(&mut buf);
    let inner_obj: Object = tags.object(&mut buf);
    inner_obj.end(&mut buf);
    tags.end(&mut buf);
    obj.end(&mut buf);
    assert_eq!(buf, r#"{"point":{"x":1,"y":2},"tags":[["a"],{}]}"#);
}

#[test]
fn array_of_everything() {
    let mut buf = String::new();
    let mut arr: Array = write_json::array(&mut buf);
    arr.null(&mut buf);
    arr.bool(&mut buf, true);
    arr.number(&mut buf, "3");
    arr.string(&mut buf, "s");
    arr.end(&mut buf);
    assert_eq!(buf, r#"[null,true,3,"s"]"#);
}

#[test]
fn duplicate_keys_are_kept() {
    let mut buf = String::new();
    let mut obj = write_json::object(&mut buf);
    obj.string(&mut buf, "k", "first");
    obj.string(&mut buf, "k", "second");
    obj.end(&mut buf);
    assert_eq!(buf, r#"{"k":"first","k":"second"}"#);
}

#[test]
fn object_field_kinds() {
    let mut buf = String::new();
    let mut obj = write_json::object(&mut buf);
    obj.null(&mut buf, "n");
    obj.bool(&mut buf, "b", false);
    obj.number(&mut buf, "num", &format!("{}", 92.0f64));
    obj.string(&mut buf, "s", "v");
    obj.end(&mut buf);
    assert_eq!(buf, r#"{"n":null,"b":false,"num":92,"s":"v"}"#);
}

#[test]
fn key_is_escaped() {
    let mut buf = String::new();
    let mut obj = write_json::object(&mut buf);
    obj.null(&mut buf, "a\"b\\c\n");
    obj.end(&mut buf);
    assert_eq!(buf, "{\"a\\\"b\\\\c\\n\":null}");
}

#[test]
fn append_only() {
    let mut buf = String::from("prefix: ");
    write_json::bool(&mut buf, true);
    assert_eq!(buf, "prefix: true");
}

#[test]
fn non_ascii_passes_verbatim() {
    let mut buf = String::new();
    write_json::string(&mut buf, "\u{100}\u{a0}\u{1f600}");
    assert_eq!(buf, "\"\u{100}\u{a0}\u{1f600}\"");
}

#[test]
fn named_escapes() {
    let mut buf = String::new();
    write_json::string(&mut buf, "a\nb\rc\td");
    assert_eq!(buf, r#""a\nb\rc\td""#);
}
