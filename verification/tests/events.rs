use error_land::clock::{now, timestamp};
use error_land::visitor::{call_site, normalize};
use error_land::{
    CoreError, Entry, Event, Field, FieldValue, FieldVisitor, JsonFormatter, JsonLayer, Level,
    NormalizedEvent, PrettyFormatter, PrettyLayer, RenderError, Value,
};

fn field(name: &str, value: FieldValue) -> Field {
    Field { name: name.to_string(), value }
}

fn text(name: &str, value: &str) -> Field {
    field(name, FieldValue::Plain(Value::Str(value.to_string())))
}

fn event(level: Level, fields: Vec<Field>) -> Event {
    Event {
        level,
        name: "event src/main.rs:55".to_string(),
        file: Some("src/main.rs".to_string()),
        line: Some(55),
        fields,
    }
}

fn chain() -> CoreError {
    CoreError::seed("fn b() did bad", "Error(\"fn b() did bad\")", "ErrorB", "src/lib.rs:43:9")
        .extend("ErrorB", "ErrorA", "src/lib.rs:37:9")
}

const AT: i64 = 1_000_000_000;

#[test]
fn caller_and_message_render_under_name_and_message() {
    let e = event(
        Level::Error,
        vec![text("caller", "src/x.rs:10:5"), text("message", "disk full")],
    );
    let line = JsonLayer.on_event_at(&e, 0).unwrap();
    assert_eq!(
        line,
        "{\"timestamp\":\"1970-01-01T00:00:00Z\",\"level\":\"ERROR\",\"name\":\"src/x.rs:10:5\",\"message\":\"disk full\"}\n"
    );
    let parsed: serde_json::Value = serde_json::from_str(&line).unwrap();
    let object = parsed.as_object().unwrap();
    let keys: Vec<&str> = object.keys().map(|k| k.as_str()).collect();
    assert_eq!(keys.len(), 4);
    assert!(keys.contains(&"timestamp"));
    assert!(keys.contains(&"level"));
    assert!(keys.contains(&"name"));
    assert!(keys.contains(&"message"));
    assert!(!keys.contains(&"stack"));
}

#[test]
fn json_formatter_writes_message_fields_and_stack() {
    let e = event(
        Level::Warn,
        vec![
            text("path", "./a \"b\".txt"),
            field("else_value", FieldValue::Plain(Value::Float("1.5".to_string()))),
            field("count", FieldValue::Plain(Value::Unsigned(3))),
            field("delta", FieldValue::Plain(Value::Signed(-7))),
            field("termination", FieldValue::Plain(Value::Bool(true))),
            field(
                "json",
                FieldValue::Plain(Value::Debug("{\"code\":200,\"success\":true}".to_string())),
            ),
            field("dbg", FieldValue::Plain(Value::Debug("Some(1)".to_string()))),
            field("nan", FieldValue::Plain(Value::Float("NaN".to_string()))),
            text("message", "Continue"),
            field("error", FieldValue::Chain(chain())),
        ],
    );
    let line = JsonFormatter.format_event_at(&e, AT).unwrap();
    assert_eq!(
        line,
        "{\"timestamp\":\"2001-09-09T01:46:40Z\",\"level\":\"WARN\",\"msg\":\"Continue\",\"path\":\"./a \\\"b\\\".txt\",\"else_value\":1.5,\"count\":3,\"delta\":-7,\"termination\":true,\"json\":{\"code\":200,\"success\":true},\"dbg\":\"Some(1)\",\"nan\":\"NaN\",\"stack\":[\"src/lib.rs:43:9 ErrorB\",\"src/lib.rs:37:9 ErrorA\"]}\n"
    );
    let parsed: serde_json::Value = serde_json::from_str(&line).unwrap();
    assert_eq!(parsed["path"].as_str().unwrap(), "./a \"b\".txt");
    assert_eq!(parsed["else_value"].as_f64().unwrap(), 1.5);
    assert_eq!(parsed["count"].as_u64().unwrap(), 3);
    assert_eq!(parsed["delta"].as_i64().unwrap(), -7);
    assert!(parsed["termination"].as_bool().unwrap());
    assert_eq!(parsed["json"]["code"].as_u64().unwrap(), 200);
    assert_eq!(parsed["stack"].as_array().unwrap().len(), 2);
}

#[test]
fn json_formatter_without_chain_shows_the_call_site() {
    let e = event(Level::Info, vec![text("message", "Reading and parsing file")]);
    assert_eq!(
        JsonFormatter.format_event_at(&e, AT).unwrap(),
        "{\"timestamp\":\"2001-09-09T01:46:40Z\",\"level\":\"INFO\",\"msg\":\"Reading and parsing file\",\"stack\":[\"src/main.rs:55\"]}\n"
    );
}

#[test]
fn missing_file_and_line_show_as_none_and_zero() {
    let mut e = event(Level::Debug, vec![]);
    e.file = None;
    e.line = None;
    assert_eq!(
        JsonFormatter.format_event_at(&e, AT).unwrap(),
        "{\"timestamp\":\"2001-09-09T01:46:40Z\",\"level\":\"DEBUG\",\"stack\":[\"None:0\"]}\n"
    );
    assert_eq!(
        PrettyFormatter.format_event_at(&e, AT).unwrap(),
        "2001-09-09T01:46:40Z \x1b[92mDEBUG\x1b[0m: \n    None:0 None\n"
    );
    assert_eq!(call_site(&None, None), "None:0");
    assert_eq!(call_site(&Some("a.rs".to_string()), None), "a.rs:0");
    assert_eq!(call_site(&None, Some(7)), "None:7");
    assert_eq!(call_site(&Some("a.rs".to_string()), Some(u32::MAX)), "a.rs:4294967295");
}

#[test]
fn caller_replaces_the_default_in_every_renderer() {
    let with = event(
        Level::Error,
        vec![text("caller", "src/x.rs:10:5"), text("message", "disk full")],
    );
    let mut other = event(
        Level::Error,
        vec![text("caller", "src/x.rs:10:5"), text("message", "disk full")],
    );
    other.name = "another name".to_string();
    other.file = None;
    other.line = Some(1);
    assert_eq!(
        JsonFormatter.format_event_at(&with, AT).unwrap(),
        "{\"timestamp\":\"2001-09-09T01:46:40Z\",\"level\":\"ERROR\",\"msg\":\"disk full\",\"stack\":[\"src/x.rs:10:5\"]}\n"
    );
    assert_eq!(
        PrettyFormatter.format_event_at(&with, AT).unwrap(),
        "2001-09-09T01:46:40Z \x1b[91mERROR\x1b[0m: \n    src/x.rs:10:5 disk full\n"
    );
    assert_eq!(
        PrettyLayer.on_event_at(&with, AT).unwrap(),
        "2001-09-09T01:46:40Z \x1b[91mERROR\x1b[0m: \n    src/x.rs:10:5 disk full\n"
    );
    assert_eq!(
        JsonLayer.on_event_at(&with, AT).unwrap(),
        "{\"timestamp\":\"2001-09-09T01:46:40Z\",\"level\":\"ERROR\",\"name\":\"src/x.rs:10:5\",\"message\":\"disk full\"}\n"
    );
    assert_eq!(
        JsonFormatter.format_event_at(&with, AT).unwrap(),
        JsonFormatter.format_event_at(&other, AT).unwrap()
    );
    assert_eq!(
        PrettyFormatter.format_event_at(&with, AT).unwrap(),
        PrettyFormatter.format_event_at(&other, AT).unwrap()
    );
    assert_eq!(
        JsonLayer.on_event_at(&with, AT).unwrap(),
        JsonLayer.on_event_at(&other, AT).unwrap()
    );
    assert_eq!(
        PrettyLayer.on_event_at(&with, AT).unwrap(),
        PrettyLayer.on_event_at(&other, AT).unwrap()
    );
}

#[test]
fn without_caller_the_layers_show_the_name() {
    let e = event(Level::Info, vec![text("message", "hello")]);
    assert_eq!(
        JsonLayer.on_event_at(&e, AT).unwrap(),
        "{\"timestamp\":\"2001-09-09T01:46:40Z\",\"level\":\"INFO\",\"name\":\"event src/main.rs:55\",\"message\":\"hello\"}\n"
    );
    assert_eq!(
        PrettyLayer.on_event_at(&e, AT).unwrap(),
        "2001-09-09T01:46:40Z \x1b[92mINFO \x1b[0m: \n    event src/main.rs:55 hello\n"
    );
}

#[test]
fn the_last_caller_wins() {
    let e = event(
        Level::Trace,
        vec![text("caller", "first:1:1"), text("x", "y"), text("caller", "second:2:2")],
    );
    let n = normalize(&e, 0, "default");
    assert_eq!(n.name_or_location, "second:2:2");
    assert_eq!(n.fields.len(), 1);
    assert_eq!(n.fields[0].key, "x");
}

#[test]
fn json_layer_adds_the_stack_only_with_a_chain() {
    let e = event(
        Level::Error,
        vec![field("error", FieldValue::Chain(chain())), text("step", "parse")],
    );
    assert_eq!(
        JsonLayer.on_event_at(&e, AT).unwrap(),
        "{\"timestamp\":\"2001-09-09T01:46:40Z\",\"level\":\"ERROR\",\"name\":\"event src/main.rs:55\",\"message\":\"fn b() did bad\",\"step\":\"parse\",\"stack\":[\"src/lib.rs:43:9 ErrorB\",\"src/lib.rs:37:9 ErrorA\"]}\n"
    );
}

#[test]
fn pretty_shows_fields_without_a_chain_and_links_with_one() {
    let plain = event(
        Level::Warn,
        vec![
            field("else_value", FieldValue::Plain(Value::Float("1.5".to_string()))),
            field("count", FieldValue::Plain(Value::Unsigned(3))),
            text("message", "Continue"),
            field("ok", FieldValue::Plain(Value::Bool(false))),
            field("delta", FieldValue::Plain(Value::Signed(-7))),
            field("dbg", FieldValue::Plain(Value::Debug("Some(\"x\")".to_string()))),
            text("path", "a b"),
        ],
    );
    assert_eq!(
        PrettyFormatter.format_event_at(&plain, AT).unwrap(),
        "2001-09-09T01:46:40Z \x1b[92mWARN \x1b[0m: else_value=1.5; count=3; ok=false; delta=-7; dbg=Some(\"x\"); path=a b; \n    src/main.rs:55 Continue\n"
    );
    let chained = event(
        Level::Error,
        vec![text("step", "parse"), field("error", FieldValue::Chain(chain()))],
    );
    assert_eq!(
        PrettyFormatter.format_event_at(&chained, AT).unwrap(),
        "2001-09-09T01:46:40Z \x1b[91mERROR\x1b[0m: \n    src/lib.rs:43:9 ErrorB\n    src/lib.rs:37:9 ErrorA\n    src/main.rs:55 fn b() did bad\n"
    );
}

#[test]
fn every_level_has_its_name_and_colour() {
    assert_eq!(Level::Error.as_str(), "ERROR");
    assert_eq!(Level::Warn.as_str(), "WARN");
    assert_eq!(Level::Info.as_str(), "INFO");
    assert_eq!(Level::Debug.as_str(), "DEBUG");
    assert_eq!(Level::Trace.as_str(), "TRACE");
    let mut e = event(Level::Trace, vec![]);
    assert_eq!(
        PrettyFormatter.format_event_at(&e, 0).unwrap(),
        "1970-01-01T00:00:00Z \x1b[92mTRACE\x1b[0m: \n    src/main.rs:55 None\n"
    );
    e.level = Level::Info;
    assert_eq!(
        PrettyFormatter.format_event_at(&e, 0).unwrap(),
        "1970-01-01T00:00:00Z \x1b[92mINFO \x1b[0m: \n    src/main.rs:55 None\n"
    );
    assert_eq!(
        JsonFormatter.format_event_at(&e, 0).unwrap(),
        "{\"timestamp\":\"1970-01-01T00:00:00Z\",\"level\":\"INFO\",\"stack\":[\"src/main.rs:55\"]}\n"
    );
}

#[test]
fn visitor_sorts_fields_by_name_first_and_kind_second() {
    let mut v = FieldVisitor::new();
    v.record("a", &FieldValue::Plain(Value::Unsigned(1)));
    v.record("message", &FieldValue::Plain(Value::Unsigned(5)));
    v.record("b", &FieldValue::Plain(Value::Str("two".to_string())));
    v.record("caller", &FieldValue::Plain(Value::Signed(-3)));
    v.record("c", &FieldValue::Plain(Value::Bool(true)));
    let n = v.finish(12, Level::Info, "default");
    assert_eq!(n.timestamp, 12);
    assert_eq!(n.level, Level::Info);
    assert_eq!(n.message, Some("5".to_string()));
    assert_eq!(n.name_or_location, "-3");
    assert!(n.backtrace.is_none());
    let keys: Vec<&str> = n.fields.iter().map(|e| e.key.as_str()).collect();
    assert_eq!(keys, vec!["a", "b", "c"]);
    assert!(matches!(n.fields[0].value, Value::Unsigned(1)));
    assert!(matches!(n.fields[2].value, Value::Bool(true)));
}

#[test]
fn visitor_without_fields_gives_the_default() {
    let n = FieldVisitor::new().finish(0, Level::Debug, "default");
    assert_eq!(n.name_or_location, "default");
    assert_eq!(n.message, None);
    assert!(n.fields.is_empty());
    assert!(n.backtrace.is_none());
}

#[test]
fn a_chain_gives_the_message_only_where_there_is_none() {
    let mut v = FieldVisitor::new();
    v.record("error", &FieldValue::Chain(chain()));
    let n = v.finish(0, Level::Error, "d");
    assert_eq!(n.message, Some("fn b() did bad".to_string()));
    assert_eq!(n.backtrace.unwrap().backtrace.len(), 2);

    let mut v = FieldVisitor::new();
    v.record("message", &FieldValue::Plain(Value::Str("mine".to_string())));
    v.record("error", &FieldValue::Chain(chain()));
    let n = v.finish(0, Level::Error, "d");
    assert_eq!(n.message, Some("mine".to_string()));
    assert_eq!(n.backtrace.unwrap().backtrace.len(), 2);

    let mut v = FieldVisitor::new();
    v.record("error", &FieldValue::Chain(chain()));
    v.record("message", &FieldValue::Plain(Value::Str("later".to_string())));
    let n = v.finish(0, Level::Error, "d");
    assert_eq!(n.message, Some("later".to_string()));
}

#[test]
fn a_second_chain_replaces_the_first() {
    let mut v = FieldVisitor::new();
    v.record("error", &FieldValue::Chain(chain()));
    v.record("cause", &FieldValue::Chain(CoreError::seed("other", "O", "T", "t.rs:1:1")));
    let n = v.finish(0, Level::Error, "d");
    let kept = n.backtrace.unwrap();
    assert_eq!(kept.backtrace.len(), 1);
    assert_eq!(kept.backtrace[0].msg, "other");
    assert_eq!(n.message, Some("fn b() did bad".to_string()));
    assert!(n.fields.is_empty());
}

#[test]
fn a_foreign_error_gives_its_display_text_as_message() {
    let mut v = FieldVisitor::new();
    v.record("message", &FieldValue::Plain(Value::Str("first".to_string())));
    v.record("error", &FieldValue::Foreign("No such file or directory (os error 2)".to_string()));
    let n = v.finish(0, Level::Error, "d");
    assert_eq!(n.message, Some("No such file or directory (os error 2)".to_string()));
    assert!(n.backtrace.is_none());
    assert!(n.fields.is_empty());
}

#[test]
fn special_names_take_any_kind() {
    let mut v = FieldVisitor::new();
    v.record("message", &FieldValue::Chain(chain()));
    v.record("caller", &FieldValue::Foreign("somewhere".to_string()));
    let n = v.finish(0, Level::Error, "d");
    assert_eq!(n.message, Some("fn b() did bad".to_string()));
    assert_eq!(n.name_or_location, "somewhere");
    assert!(n.backtrace.is_none());

    let mut v = FieldVisitor::new();
    v.record("caller", &FieldValue::Plain(Value::Bool(true)));
    v.record("message", &FieldValue::Plain(Value::Float("2.5".to_string())));
    let n = v.finish(0, Level::Error, "d");
    assert_eq!(n.name_or_location, "true");
    assert_eq!(n.message, Some("2.5".to_string()));
}

#[test]
fn normalize_is_the_visitor_over_all_fields() {
    let e = event(
        Level::Warn,
        vec![
            text("k1", "v1"),
            text("message", "m"),
            field("k2", FieldValue::Plain(Value::Signed(i64::MIN))),
            field("k3", FieldValue::Plain(Value::Unsigned(u64::MAX))),
        ],
    );
    let n = normalize(&e, 77, "fallback");
    assert_eq!(n.timestamp, 77);
    assert_eq!(n.level, Level::Warn);
    assert_eq!(n.name_or_location, "fallback");
    assert_eq!(n.message, Some("m".to_string()));
    assert_eq!(n.fields.len(), 3);
    assert_eq!(
        JsonLayer.render(&n).unwrap(),
        "{\"timestamp\":\"1970-01-01T00:01:17Z\",\"level\":\"WARN\",\"name\":\"fallback\",\"message\":\"m\",\"k1\":\"v1\",\"k2\":-9223372036854775808,\"k3\":18446744073709551615}\n"
    );
}

#[test]
fn render_takes_a_normalized_event_as_it_is() {
    let n = NormalizedEvent {
        timestamp: 86_400,
        level: Level::Error,
        name_or_location: "here".to_string(),
        message: None,
        fields: vec![Entry { key: "k\n".to_string(), value: Value::Str("v\t".to_string()) }],
        backtrace: Some(CoreError { backtrace: vec![] }),
    };
    assert_eq!(
        JsonFormatter.render(&n).unwrap(),
        "{\"timestamp\":\"1970-01-02T00:00:00Z\",\"level\":\"ERROR\",\"k\\n\":\"v\\t\",\"stack\":[]}\n"
    );
    assert_eq!(
        JsonLayer.render(&n).unwrap(),
        "{\"timestamp\":\"1970-01-02T00:00:00Z\",\"level\":\"ERROR\",\"name\":\"here\",\"k\\n\":\"v\\t\",\"stack\":[]}\n"
    );
    assert_eq!(
        error_land::loc_formater::render_pretty(&n).unwrap(),
        "1970-01-02T00:00:00Z \x1b[91mERROR\x1b[0m: \n    here None\n"
    );
}

#[test]
fn float_text_is_a_number_only_where_json_says_so() {
    for good in ["0", "-0", "1", "10", "1.5", "-0.25", "1e5", "1E5", "1e+5", "2.5E-3", "123456789012345678901234567890"] {
        assert!(error_land::scan::is_number(good), "{}", good);
        let e = event(
            Level::Info,
            vec![field("x", FieldValue::Plain(Value::Float(good.to_string())))],
        );
        let line = JsonLayer.on_event_at(&e, 0).unwrap();
        assert!(line.contains(&format!(",\"x\":{}}}", good)), "{}", line);
        let parsed: serde_json::Value = serde_json::from_str(&line).unwrap();
        assert!(parsed["x"].is_number());
    }
    for bad in ["", "-", "+1", "01", "-01", "1.", ".5", "1e", "1e+", "1.5.2", "NaN", "inf", "-inf", "1 ", " 1", "0x10", "1e5x", "\u{661}"] {
        assert!(!error_land::scan::is_number(bad), "{}", bad);
        let e = event(
            Level::Info,
            vec![field("x", FieldValue::Plain(Value::Float(bad.to_string())))],
        );
        let line = JsonLayer.on_event_at(&e, 0).unwrap();
        let parsed: serde_json::Value = serde_json::from_str(&line).unwrap();
        assert_eq!(parsed["x"].as_str().unwrap(), bad);
    }
}

#[test]
fn debug_text_goes_inline_only_as_a_json_object_on_one_line() {
    for good in [
        "{}",
        "{ }",
        "{\"a\":1}",
        "{\"a\":[1,2,{\"b\":null}]}",
        "{\"s\":\"x\\ny\"}",
        "{ \"a\" : [ ] , \"b\" : { } , \"c\" : [ true , false , null , -1.5e+3 , \"\" ] }",
        "{\"u\":\"\\u00e9\\ud83d\\ude00\\/\\b\\f\\n\\r\\t\\\\\\\"\"}",
        "{\"\":0}",
        "{\"a\":1,\"a\":2}",
        "{\"raw\":\"\u{e9}\u{1f600}\u{7f}\"}",
    ] {
        assert!(error_land::scan::is_object(good), "{}", good);
        let e = event(
            Level::Info,
            vec![field("x", FieldValue::Plain(Value::Debug(good.to_string())))],
        );
        let line = JsonLayer.on_event_at(&e, 0).unwrap();
        assert!(line.contains(&format!(",\"x\":{}}}", good)), "{}", line);
        let parsed: serde_json::Value = serde_json::from_str(&line).unwrap();
        assert!(parsed["x"].is_object());
    }
    for bad in [
        "",
        "{",
        "}",
        "{x}",
        "{\"a\":1",
        "[1]",
        "null",
        "1",
        "\"{}\"",
        "{} {}",
        "{}x",
        " {}",
        "{} ",
        "{\n}",
        "{\"a\":\t1}",
        "Some(1)",
        "{\"a\"}",
        "{\"a\":}",
        "{\"a\":1,}",
        "{,}",
        "{\"a\":01}",
        "{\"a\":1.}",
        "{\"a\":.5}",
        "{\"a\":+1}",
        "{\"a\":1e}",
        "{\"a\":tru}",
        "{\"a\":True}",
        "{\"a\":nul}",
        "{\"a\":[1,]}",
        "{\"a\":[1 2]}",
        "{\"a\":[}",
        "{\"a\":\"\\x\"}",
        "{\"a\":\"\\u12\"}",
        "{\"a\":\"\\u12g4\"}",
        "{\"a\":\"\\ud83d\"}",
        "{\"a\":\"\\ude00\"}",
        "{\"a\":\"\\ud83d\\u0041\"}",
        "{\"a\":\"unterminated}",
        "{a:1}",
        "{'a':1}",
    ] {
        assert!(!error_land::scan::is_object(bad), "{}", bad);
        let e = event(
            Level::Info,
            vec![field("x", FieldValue::Plain(Value::Debug(bad.to_string())))],
        );
        let line = JsonLayer.on_event_at(&e, 0).unwrap();
        let parsed: serde_json::Value = serde_json::from_str(&line).unwrap();
        assert_eq!(parsed["x"].as_str().unwrap(), bad);
    }
}

#[test]
fn a_json_line_is_one_line_whatever_the_fields_hold() {
    let e = event(
        Level::Error,
        vec![
            text("caller", "a\nb"),
            text("message", "line one\nline two\r\n"),
            text("k\ney", "v\u{0}l"),
            field("d", FieldValue::Plain(Value::Debug("{\n\"a\": 1\n}".to_string()))),
            field("f", FieldValue::Plain(Value::Float("1\n2".to_string()))),
            field(
                "error",
                FieldValue::Chain(CoreError::seed("m\n", "s\n", "t\n", "l\n")),
            ),
        ],
    );
    for line in [JsonLayer.on_event_at(&e, AT).unwrap(), JsonFormatter.format_event_at(&e, AT).unwrap()] {
        assert!(line.ends_with("}\n"));
        assert_eq!(line.matches('\n').count(), 1);
        assert!(line[..line.len() - 1].chars().all(|c| c >= ' '));
        let parsed: serde_json::Value = serde_json::from_str(&line).unwrap();
        assert_eq!(parsed["k\ney"].as_str().unwrap(), "v\u{0}l");
        assert_eq!(parsed["stack"][0].as_str().unwrap(), "l\n t\n");
    }
}

#[test]
fn an_instant_out_of_range_is_an_error() {
    let e = event(Level::Info, vec![]);
    assert_eq!(JsonFormatter.format_event_at(&e, i64::MAX), Err(RenderError::Timestamp));
    assert_eq!(JsonFormatter.format_event_at(&e, i64::MIN), Err(RenderError::Timestamp));
    assert_eq!(PrettyFormatter.format_event_at(&e, i64::MAX), Err(RenderError::Timestamp));
    assert_eq!(JsonLayer.on_event_at(&e, i64::MIN), Err(RenderError::Timestamp));
    assert_eq!(PrettyLayer.on_event_at(&e, i64::MAX), Err(RenderError::Timestamp));
    assert_eq!(timestamp(i64::MAX), Err(RenderError::Timestamp));
}

#[test]
fn timestamps_stop_at_the_second() {
    assert_eq!(timestamp(0).unwrap(), "1970-01-01T00:00:00");
    assert_eq!(timestamp(-1).unwrap(), "1969-12-31T23:59:59");
    assert_eq!(timestamp(951_782_400).unwrap(), "2000-02-29T00:00:00");
    assert_eq!(timestamp(AT).unwrap(), "2001-09-09T01:46:40");
    assert_eq!(timestamp(253_402_300_799).unwrap(), "9999-12-31T23:59:59");
    assert_eq!(timestamp(253_402_300_800).unwrap(), "10000-01-01T00:00:0");
    assert_eq!(timestamp(-62_167_219_200).unwrap(), "0-01-01T00:00:00.00");
}

#[test]
fn rendering_now_uses_the_clock() {
    let t = now().unwrap();
    assert!(t > 1_600_000_000);
    let e = event(Level::Info, vec![text("message", "hello")]);
    let line = JsonFormatter.format_event(&e).unwrap();
    let parsed: serde_json::Value = serde_json::from_str(&line).unwrap();
    let stamp = parsed["timestamp"].as_str().unwrap();
    assert_eq!(stamp.len(), 20);
    assert!(stamp.ends_with('Z'));
    assert_eq!(&stamp[4..5], "-");
    assert_eq!(&stamp[10..11], "T");
    assert_eq!(parsed["msg"].as_str().unwrap(), "hello");
    let line = JsonLayer.on_event(&e).unwrap();
    let parsed: serde_json::Value = serde_json::from_str(&line).unwrap();
    assert_eq!(parsed["name"].as_str().unwrap(), "event src/main.rs:55");
    let pretty = PrettyFormatter.format_event(&e).unwrap();
    assert!(pretty.ends_with("\n    src/main.rs:55 hello\n"));
    let pretty = PrettyLayer.on_event(&e).unwrap();
    assert!(pretty.ends_with("\n    event src/main.rs:55 hello\n"));
    assert!(pretty.contains("Z \x1b[92mINFO \x1b[0m: "));
}

#[test]
fn the_grammar_agrees_with_a_json_parser() {
    let pieces = [
        "{", "}", "[", "]", ",", ":", "\"a\"", "\"\"", "1", "-", "0", "1.5", "e", "E3", "true",
        "false", "null", " ", "\\", "\"", "x",
    ];
    let mut count = 0;
    for a in pieces {
        for b in pieces {
            for c in pieces {
                for d in pieces {
                    let text = format!("{{{}{}{}{}}}", a, b, c, d);
                    let parsed = serde_json::from_str::<serde_json::Value>(&text);
                    let expected = matches!(parsed, Ok(serde_json::Value::Object(_)));
                    assert_eq!(error_land::scan::is_object(&text), expected, "{}", text);
                    count += 1;
                }
            }
        }
    }
    assert_eq!(count, 21 * 21 * 21 * 21);
}

#[test]
fn nesting_has_a_limit() {
    let nested = |n: usize| format!("{{\"a\":{}1{}}}", "[".repeat(n), "]".repeat(n));
    assert!(error_land::scan::is_object(&nested(0)));
    assert!(error_land::scan::is_object(&nested(1)));
    assert!(error_land::scan::is_object(&nested(63)));
    assert!(!error_land::scan::is_object(&nested(64)));
    assert!(!error_land::scan::is_object(&nested(5000)));
    assert_eq!(error_land::scan::to_chars("a\u{e9}\u{1f600}"), vec!['a', '\u{e9}', '\u{1f600}']);
}
