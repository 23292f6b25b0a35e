use food_journal::object::{read_object, write_object, Field, Value};
use food_journal::token::Numeral;

fn text(name: &str, value: &str) -> Field {
    Field { name: name.to_string(), value: Value::Text(value.to_string()) }
}

fn number(name: &str, value: &str) -> Field {
    Field { name: name.to_string(), value: Value::Number(Numeral::parse(value).unwrap()) }
}

#[test]
fn write_object_joins_the_members_with_commas() {
    assert_eq!(write_object(&vec![]), "{}");
    assert_eq!(write_object(&vec![text("a", "b")]), "{\"a\":\"b\"}");
    assert_eq!(
        write_object(&vec![text("a", "b"), number("n", "-1.5e3"), text("", "")]),
        "{\"a\":\"b\",\"n\":-1.5e3,\"\":\"\"}"
    );
}

#[test]
fn write_object_escapes_names_and_values() {
    assert_eq!(
        write_object(&vec![text("a\"b", "c\\d\ne\u{1}f")]),
        "{\"a\\\"b\":\"c\\\\d\\ne\\u0001f\"}"
    );
}

#[test]
fn read_object_reads_what_write_object_wrote() {
    let cases = vec![
        vec![],
        vec![text("a", "b")],
        vec![number("n", "0")],
        vec![text("a", "b"), number("n", "-1.5e3"), text("", ""), number("n", "7")],
        vec![text("quote\"", "back\\slash"), text("ctl", "\u{0}\u{8}\t\n\u{c}\r\u{1f}"), text("u", "日本語🍎")],
    ];
    for fields in cases {
        let written = write_object(&fields);
        assert_eq!(read_object(&written), Some(fields));
    }
}

#[test]
fn read_object_keeps_order_and_repeated_names() {
    let fields = read_object("{\"b\":1,\"a\":\"x\",\"b\":2}").unwrap();
    assert_eq!(fields, vec![number("b", "1"), text("a", "x"), number("b", "2")]);
}

#[test]
fn write_object_gives_back_the_text_that_was_read() {
    for written in [
        "{}",
        "{\"a\":1}",
        "{\"a\":1.50,\"b\":\"\\u0000\\\"\",\"c\":-0,\"d\":1E+9}",
        "{\"\":\"\"}",
    ] {
        assert_eq!(write_object(&read_object(written).unwrap()), written);
    }
}

#[test]
fn read_object_refuses_every_other_text() {
    for written in [
        "",
        "{",
        "}",
        "{}}",
        "{{}",
        "{} ",
        " {}",
        "{ }",
        "{\"a\"}",
        "{\"a\":}",
        "{\"a\":1,}",
        "{,\"a\":1}",
        "{\"a\":1,,\"b\":2}",
        "{\"a\":1 ,\"b\":2}",
        "{\"a\": 1}",
        "{\"a\" :1}",
        "{a:1}",
        "{\"a\":01}",
        "{\"a\":1.}",
        "{\"a\":+1}",
        "{\"a\":1e}",
        "{\"a\":true}",
        "{\"a\":null}",
        "{\"a\":[1]}",
        "{\"a\":{}}",
        "{\"a\":\"b}",
        "{\"a\":\"b\\\"}",
        "{\"a\":\"\\q\"}",
        "{\"a\":\"\\u12\"}",
        "{\"a\":\"\\u0041\"}",
        "{\"a\":\"\t\"}",
        "{\"a\":1}x",
        "[]",
        "1",
        "\"a\"",
    ] {
        assert_eq!(read_object(written), None, "{written:?}");
    }
}
