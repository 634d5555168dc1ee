use error_land::error_string::Error;
use error_land::{into_err, CoreError, LayerError, StackItem};

fn not_found() -> std::io::Error {
    std::io::Error::from_raw_os_error(2)
}

#[test]
fn test() {
    let e = into_err("fn b() did bad");
    let b = LayerError::from_error("ErrorB", &e, "src/lib.rs:43:9");
    let err = b.convert("ErrorA", "src/lib.rs:37:9");
    println!("{}", err.render_json());
    assert_eq!(
        err.render_json(),
        r#"{"backtrace":[{"source":"Error(\"fn b() did bad\")","target":"ErrorB","msg":"fn b() did bad","location":"src/lib.rs:43:9"},{"source":"ErrorB","target":"ErrorA","msg":"","location":"src/lib.rs:37:9"}]}"#
    );
}

#[test]
fn into_err_keeps_the_message() {
    let e = into_err("File was empty");
    assert_eq!(e.0, "File was empty");
    assert_eq!(e.to_string(), "File was empty");
}

#[test]
fn error_new_and_texts() {
    let e = Error::new("a \"quoted\" word\n");
    assert_eq!(e.0, "a \"quoted\" word\n");
    assert_eq!(e.to_string(), "a \"quoted\" word\n");
    assert_eq!(e.debug_text(), "Error(\"a \\\"quoted\\\" word\\n\")");
    assert_eq!(e.debug_text(), format!("{:?}", e));
}

#[test]
fn seed_makes_one_link() {
    let foreign = not_found();
    let chain = CoreError::seed(
        &foreign.to_string(),
        &format!("{:?}", foreign),
        "ReadFileError",
        "src/main.rs:9:16",
    );
    assert_eq!(chain.backtrace.len(), 1);
    assert_eq!(chain.backtrace[0].msg, "No such file or directory (os error 2)");
    assert_eq!(chain.backtrace[0].source, format!("{:?}", foreign));
    assert_eq!(chain.backtrace[0].target, "ReadFileError");
    assert_eq!(chain.backtrace[0].location, "src/main.rs:9:16");
}

#[test]
fn seed_of_an_empty_message() {
    let chain = CoreError::seed("", "", "", "");
    assert_eq!(chain.backtrace.len(), 1);
    assert_eq!(chain.backtrace[0].msg, "");
    assert_eq!(
        chain.render_json(),
        r#"{"backtrace":[{"source":"","target":"","msg":"","location":""}]}"#
    );
}

#[test]
fn extend_adds_one_link_and_keeps_the_rest() {
    let one = CoreError::seed("boom", "Boom", "A", "a.rs:1:1");
    let before = one.clone();
    let two = one.extend("A", "B", "b.rs:2:2");
    assert_eq!(two.backtrace.len(), before.backtrace.len() + 1);
    assert_eq!(two.backtrace[0].msg, before.backtrace[0].msg);
    assert_eq!(two.backtrace[0].source, before.backtrace[0].source);
    assert_eq!(two.backtrace[0].target, before.backtrace[0].target);
    assert_eq!(two.backtrace[0].location, before.backtrace[0].location);
    assert_eq!(two.backtrace[1].msg, "");
    assert_eq!(two.backtrace[1].source, "A");
    assert_eq!(two.backtrace[1].target, "B");
    assert_eq!(two.backtrace[1].location, "b.rs:2:2");
    let three = two.extend("B", "C", "c.rs:3:3");
    assert_eq!(three.backtrace.len(), 3);
    assert_eq!(three.backtrace[2].target, "C");
    assert_eq!(three.backtrace[1].location, "b.rs:2:2");
}

#[test]
fn file_not_found_crosses_three_layers() {
    let foreign = not_found();
    let chain = CoreError::seed(
        &foreign.to_string(),
        &format!("{:?}", foreign),
        "ReadFileError",
        "src/main.rs:9:16",
    )
    .extend("ReadFileError", "ParseError", "src/main.rs:22:8")
    .extend("ParseError", "ErrorMain", "src/main.rs:76:9");
    assert_eq!(chain.backtrace.len(), 3);
    let parsed: serde_json::Value = serde_json::from_str(&chain.render_json()).unwrap();
    let links = parsed["backtrace"].as_array().unwrap();
    assert_eq!(links.len(), 3);
    assert_eq!(links[2]["target"].as_str().unwrap(), "ErrorMain");
    assert_eq!(links[0]["msg"].as_str().unwrap(), "No such file or directory (os error 2)");
    assert_eq!(links[0]["msg"].as_str().unwrap(), foreign.to_string());
}

#[test]
fn render_json_of_an_empty_chain() {
    let chain = CoreError { backtrace: vec![] };
    assert_eq!(chain.render_json(), r#"{"backtrace":[]}"#);
    assert_eq!(chain.summary(), "");
}

#[test]
fn render_json_reads_back_link_by_link() {
    let chain = CoreError {
        backtrace: vec![
            StackItem {
                msg: "say \"hi\"\nand\tgo \\ \u{1} \u{7f} \u{e9} \u{1f600}".to_string(),
                location: "src/a.rs:1:2".to_string(),
                source: "Os { code: 2, message: \"x\" }".to_string(),
                target: "First".to_string(),
            },
            StackItem {
                msg: String::new(),
                location: "src/b.rs:3:4".to_string(),
                source: "First".to_string(),
                target: "Second".to_string(),
            },
            StackItem {
                msg: "\u{8}\u{c}\r\u{0}\u{1f}".to_string(),
                location: "src/c.rs:5:6".to_string(),
                source: "Second".to_string(),
                target: "Third".to_string(),
            },
        ],
    };
    let text = chain.render_json();
    let parsed: serde_json::Value = serde_json::from_str(&text).unwrap();
    let links = parsed["backtrace"].as_array().unwrap();
    assert_eq!(links.len(), chain.backtrace.len());
    for (link, item) in links.iter().zip(chain.backtrace.iter()) {
        assert_eq!(link.as_object().unwrap().len(), 4);
        assert_eq!(link["source"].as_str().unwrap(), item.source);
        assert_eq!(link["target"].as_str().unwrap(), item.target);
        assert_eq!(link["msg"].as_str().unwrap(), item.msg);
        assert_eq!(link["location"].as_str().unwrap(), item.location);
    }
    assert_eq!(serde_json::to_string(&parsed).unwrap().len(), text.len());
}

#[test]
fn a_quote_and_a_newline_come_back_unchanged() {
    let message = "disk \"full\"\nretry";
    let chain = CoreError::seed(message, "E", "T", "l");
    let text = chain.render_json();
    assert_eq!(
        text,
        r#"{"backtrace":[{"source":"E","target":"T","msg":"disk \"full\"\nretry","location":"l"}]}"#
    );
    let parsed: serde_json::Value = serde_json::from_str(&text).unwrap();
    assert_eq!(parsed["backtrace"][0]["msg"].as_str().unwrap(), message);
}

#[test]
fn control_characters_are_escaped_in_lower_case_hex() {
    let chain = CoreError::seed("\u{0}\u{1b}\u{1f}\u{8}\u{c}\r\t\u{7f}\\", "", "", "");
    assert_eq!(
        chain.render_json(),
        "{\"backtrace\":[{\"source\":\"\",\"target\":\"\",\"msg\":\"\\u0000\\u001b\\u001f\\b\\f\\r\\t\u{7f}\\\\\",\"location\":\"\"}]}"
    );
}

#[test]
fn summary_is_the_oldest_message() {
    let chain = CoreError::seed("root cause", "E", "A", "a").extend("A", "B", "b");
    assert_eq!(chain.summary(), "root cause");
    let silent = CoreError::seed("", "E", "A", "a").extend("A", "B", "b");
    assert_eq!(silent.summary(), "");
    let late = CoreError {
        backtrace: vec![
            StackItem {
                msg: String::new(),
                location: "a".to_string(),
                source: "E".to_string(),
                target: "A".to_string(),
            },
            StackItem {
                msg: "second".to_string(),
                location: "b".to_string(),
                source: "A".to_string(),
                target: "B".to_string(),
            },
            StackItem {
                msg: "third".to_string(),
                location: "c".to_string(),
                source: "B".to_string(),
                target: "C".to_string(),
            },
        ],
    };
    assert_eq!(late.summary(), "second");
}

#[test]
fn clone_keeps_every_link() {
    let chain = CoreError::seed("m", "s", "t", "l").extend("t", "u", "k");
    let copy = chain.clone();
    assert_eq!(copy.render_json(), chain.render_json());
    let item = chain.backtrace[0].clone();
    assert_eq!(item.msg, "m");
    assert_eq!(item.source, "s");
    assert_eq!(item.target, "t");
    assert_eq!(item.location, "l");
}

#[test]
fn chain_from_an_error_holds_its_two_texts() {
    let e = into_err("fn b() did bad");
    let chain = CoreError::from_error(&e, "ErrorB", "src/lib.rs:43:9");
    assert_eq!(chain.backtrace.len(), 1);
    assert_eq!(chain.backtrace[0].msg, "fn b() did bad");
    assert_eq!(chain.backtrace[0].source, "Error(\"fn b() did bad\")");
    assert_eq!(chain.backtrace[0].target, "ErrorB");
    assert_eq!(chain.backtrace[0].location, "src/lib.rs:43:9");
}

#[test]
fn a_layer_error_starts_with_one_link() {
    let foreign = not_found();
    let error = LayerError::seed(
        "ReadFileError",
        &foreign.to_string(),
        &format!("{:?}", foreign),
        "src/main.rs:9:16",
    );
    assert_eq!(error.layer(), "ReadFileError");
    assert_eq!(error.summary(), "No such file or directory (os error 2)");
    let chain = error.to_error();
    assert_eq!(chain.backtrace.len(), 1);
    assert_eq!(chain.backtrace[0].msg, foreign.to_string());
    assert_eq!(chain.backtrace[0].source, format!("{:?}", foreign));
}

#[test]
fn a_layer_error_goes_on_from_the_layer_it_is_in() {
    let foreign = not_found();
    let error = LayerError::seed(
        "ReadFileError",
        &foreign.to_string(),
        &format!("{:?}", foreign),
        "src/main.rs:9:16",
    )
    .convert("ParseError", "src/main.rs:22:8")
    .convert("ErrorMain", "src/main.rs:76:9");
    assert_eq!(error.layer(), "ErrorMain");
    assert_eq!(error.summary(), "No such file or directory (os error 2)");
    let text = error.render_json();
    let chain = error.to_error();
    assert_eq!(chain.render_json(), text);
    assert_eq!(chain.backtrace.len(), 3);
    assert_eq!(chain.backtrace[1].source, "ReadFileError");
    assert_eq!(chain.backtrace[1].target, "ParseError");
    assert_eq!(chain.backtrace[1].msg, "");
    assert_eq!(chain.backtrace[1].location, "src/main.rs:22:8");
    assert_eq!(chain.backtrace[2].source, "ParseError");
    assert_eq!(chain.backtrace[2].target, "ErrorMain");
    assert_eq!(chain.backtrace[2].location, "src/main.rs:76:9");
    let parsed: serde_json::Value = serde_json::from_str(&text).unwrap();
    let links = parsed["backtrace"].as_array().unwrap();
    assert_eq!(links.len(), 3);
    assert_eq!(links[2]["target"].as_str().unwrap(), "ErrorMain");
    assert_eq!(links[0]["msg"].as_str().unwrap(), "No such file or directory (os error 2)");
}
