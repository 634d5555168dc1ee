use error_land::json::quote;
use error_land::text::{write_bool, write_centered, write_i64, write_spaces, write_u64};

fn with(f: impl Fn(&mut String)) -> String {
    let mut buf = String::from(">");
    f(&mut buf);
    buf
}

#[test]
fn write_appends() {
    let mut buf = String::new();
    error_land::loc_layer::write(&mut buf, "");
    assert_eq!(buf, "");
    error_land::loc_layer::write(&mut buf, "{\"time\":");
    error_land::loc_layer::write(&mut buf, "\"now\"");
    assert_eq!(buf, "{\"time\":\"now\"");
}

#[test]
fn unsigned_numbers_in_decimal() {
    assert_eq!(with(|b| write_u64(b, 0)), ">0");
    assert_eq!(with(|b| write_u64(b, 9)), ">9");
    assert_eq!(with(|b| write_u64(b, 10)), ">10");
    assert_eq!(with(|b| write_u64(b, 1_234_567_890)), ">1234567890");
    assert_eq!(with(|b| write_u64(b, u64::MAX)), ">18446744073709551615");
}

#[test]
fn signed_numbers_in_decimal() {
    assert_eq!(with(|b| write_i64(b, 0)), ">0");
    assert_eq!(with(|b| write_i64(b, -1)), ">-1");
    assert_eq!(with(|b| write_i64(b, 42)), ">42");
    assert_eq!(with(|b| write_i64(b, i64::MAX)), ">9223372036854775807");
    assert_eq!(with(|b| write_i64(b, i64::MIN)), ">-9223372036854775808");
    for n in [-1000i64, -99, -10, -9, 7, 100, 1001] {
        assert_eq!(with(|b| write_i64(b, n)), format!(">{}", n));
    }
}

#[test]
fn truth_values_spelled_out() {
    assert_eq!(with(|b| write_bool(b, true)), ">true");
    assert_eq!(with(|b| write_bool(b, false)), ">false");
}

#[test]
fn spaces_and_centring() {
    assert_eq!(with(|b| write_spaces(b, 0)), ">");
    assert_eq!(with(|b| write_spaces(b, 3)), ">   ");
    assert_eq!(with(|b| write_centered(b, "INFO", 5)), ">INFO ");
    assert_eq!(with(|b| write_centered(b, "ERROR", 5)), ">ERROR");
    assert_eq!(with(|b| write_centered(b, "LONGER", 5)), ">LONGER");
    assert_eq!(with(|b| write_centered(b, "ab", 5)), "> ab  ");
    assert_eq!(with(|b| write_centered(b, "a", 5)), ">  a  ");
    assert_eq!(with(|b| write_centered(b, "", 4)), ">    ");
    assert_eq!(with(|b| write_centered(b, "\u{e9}\u{e9}", 5)), "> \u{e9}\u{e9}  ");
    for word in ["", "a", "ab", "abc", "abcd", "abcde", "abcdef"] {
        assert_eq!(with(|b| write_centered(b, word, 5)), format!(">{:^5}", word));
    }
}

#[test]
fn quote_escapes_what_json_asks_for() {
    assert_eq!(quote(""), "\"\"");
    assert_eq!(quote("plain"), "\"plain\"");
    assert_eq!(quote("a\"b"), "\"a\\\"b\"");
    assert_eq!(quote("a\\b"), "\"a\\\\b\"");
    assert_eq!(quote("a/b"), "\"a/b\"");
    assert_eq!(quote("\u{8}\t\n\u{c}\r"), "\"\\b\\t\\n\\f\\r\"");
    assert_eq!(quote("\u{0}\u{b}\u{e}\u{1f}"), "\"\\u0000\\u000b\\u000e\\u001f\"");
    assert_eq!(quote("\u{7f}\u{80}\u{e9}\u{2028}\u{1f600}"), "\"\u{7f}\u{80}\u{e9}\u{2028}\u{1f600}\"");
}

#[test]
fn quote_reads_back_for_every_ascii_character() {
    for code in 0u8..128 {
        let s = format!("a{}b", code as char);
        let q = quote(&s);
        let back: String = serde_json::from_str(&q).unwrap();
        assert_eq!(back, s);
        let escaped = code < 0x20 || code == b'"' || code == b'\\';
        assert_eq!(q.len() == s.len() + 2, !escaped, "{}", code);
    }
}
