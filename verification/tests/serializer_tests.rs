use my_logger::serializer::{is_bool, is_null, is_number};
use my_logger::text::chars_of;
use my_logger::{
    compile_body, format_seq_string, format_value, serialize, ContextType, LogLevel, MyLogEvent,
    PopulatedParams, Timestamp,
};
use std::sync::Arc;

fn pair(key: &str, value: &str) -> (String, String) {
    (key.to_string(), value.to_string())
}

fn event(level: LogLevel, context: Option<Vec<(String, String)>>) -> MyLogEvent {
    MyLogEvent {
        dt: Timestamp::new(1_619_371_843_602_432),
        level,
        process: "App".to_string(),
        message: "Started".to_string(),
        context,
    }
}

fn record_with_context_value(value: &str) -> String {
    let e = event(LogLevel::Info, Some(vec![pair("k", value)]));
    serialize(String::new(), &e, &PopulatedParams::new_empty())
}

const HEAD: &str = "{\"@l\":\"Info\",\"@t\":\"2021-04-25T17:30:43.602\",\"Process\":\"App\",\"@m\":\"Started\"";

#[test]
fn record_without_params_and_context() {
    let e = event(LogLevel::Info, None);
    let record = serialize(String::new(), &e, &PopulatedParams::new_empty());
    assert_eq!(format!("{}}}", HEAD), record);
}

#[test]
fn record_with_params_and_context() {
    let params = PopulatedParams::new(vec![
        pair("Application", "demo"),
        pair("Version", "1.0.3"),
        pair("Location", "here"),
    ]);
    let e = event(LogLevel::Error, Some(vec![pair("HostPort", "10.0.0.3:5125"), pair("Tries", "3")]));
    let record = serialize(String::new(), &e, &params);
    assert_eq!(
        "{\"@l\":\"Error\",\"@t\":\"2021-04-25T17:30:43.602\",\"Process\":\"App\",\"@m\":\"Started\",\
\"Application\":\"demo\",\"Version\":\"1.0.3\",\"@x\":\"here\",\"HostPort\":\"10.0.0.3:5125\",\"Tries\":3}",
        record
    );
}

#[test]
fn levels_have_their_labels() {
    let empty = PopulatedParams::new_empty();
    let labels = [
        (LogLevel::Info, "Info"),
        (LogLevel::Warning, "Warning"),
        (LogLevel::Error, "Error"),
        (LogLevel::FatalError, "Fatal"),
        (LogLevel::Debug, "Debug"),
    ];
    for (level, label) in labels {
        let record = serialize(String::new(), &event(level, None), &empty);
        assert!(record.starts_with(&format!("{{\"@l\":\"{}\",\"@t\"", label)));
    }
}

#[test]
fn serializing_twice_gives_the_same_bytes() {
    let params = PopulatedParams::new(vec![pair("Application", "demo")]);
    let e = event(LogLevel::Warning, Some(vec![pair("a", "b\nc"), pair("n", "42")]));
    let first = serialize(String::new(), &e, &params);
    let second = serialize(String::from("what the buffer held before"), &e, &params);
    assert_eq!(first.as_bytes(), second.as_bytes());
    let third = serialize(first.clone(), &e, &params);
    assert_eq!(first, third);
}

#[test]
fn json_literals_in_the_context_go_in_raw() {
    assert_eq!(format!("{},\"k\":null}}", HEAD), record_with_context_value("null"));
    assert_eq!(format!("{},\"k\":42}}", HEAD), record_with_context_value("42"));
    assert_eq!(format!("{},\"k\":true}}", HEAD), record_with_context_value("true"));
    assert_eq!(format!("{},\"k\":false}}", HEAD), record_with_context_value("false"));
    assert_eq!(format!("{},\"k\":-1.5e+10}}", HEAD), record_with_context_value("-1.5e+10"));
}

#[test]
fn other_values_in_the_context_go_in_as_strings() {
    assert_eq!(format!("{},\"k\":\"hello\"}}", HEAD), record_with_context_value("hello"));
    assert_eq!(format!("{},\"k\":\"\"}}", HEAD), record_with_context_value(""));
    assert_eq!(format!("{},\"k\":\"Null\"}}", HEAD), record_with_context_value("Null"));
    assert_eq!(format!("{},\"k\":\"042\"}}", HEAD), record_with_context_value("042"));
    assert_eq!(format!("{},\"k\":\"1.\"}}", HEAD), record_with_context_value("1."));
}

#[test]
fn a_line_feed_in_the_context_goes_in_as_two_characters() {
    let record = record_with_context_value("line one\nline two");
    assert_eq!(format!("{},\"k\":\"line one\\nline two\"}}", HEAD), record);
    assert!(!record.contains('\n'));
    let record = record_with_context_value("a\r\nb\tc\u{1}d");
    assert_eq!(format!("{},\"k\":\"a\\r\\nbcd\"}}", HEAD), record);
}

#[test]
fn quotes_and_backslashes_are_quoted() {
    let record = record_with_context_value("say \"hi\" \\ bye");
    assert_eq!(format!("{},\"k\":\"say \\\"hi\\\" \\\\ bye\"}}", HEAD), record);
}

#[test]
fn message_and_process_are_escaped_and_never_raw() {
    let e = MyLogEvent {
        dt: Timestamp::new(0),
        level: LogLevel::Debug,
        process: "42".to_string(),
        message: "first\nsecond \"quoted\"".to_string(),
        context: None,
    };
    let record = serialize(String::new(), &e, &PopulatedParams::new_empty());
    assert_eq!(
        "{\"@l\":\"Debug\",\"@t\":\"1970-01-01T00:00:00.000\",\"Process\":\"42\",\"@m\":\"first\\nsecond \\\"quoted\\\"\"}",
        record
    );
}

#[test]
fn location_parameter_becomes_the_exception_field() {
    let params = PopulatedParams::new(vec![pair("Location", "main.rs:10"), pair("location", "x")]);
    let record = serialize(String::new(), &event(LogLevel::Info, None), &params);
    assert_eq!(format!("{},\"@x\":\"main.rs:10\",\"location\":\"x\"}}", HEAD), record);
    let e = event(LogLevel::Info, Some(vec![pair("Location", "ctx")]));
    let record = serialize(String::new(), &e, &PopulatedParams::new_empty());
    assert_eq!(format!("{},\"Location\":\"ctx\"}}", HEAD), record);
}

#[test]
fn parameter_values_that_are_json_literals_go_in_raw() {
    let params = PopulatedParams::new(vec![pair("Version", "2"), pair("Beta", "true")]);
    let record = serialize(String::new(), &event(LogLevel::Info, None), &params);
    assert_eq!(format!("{},\"Version\":2,\"Beta\":true}}", HEAD), record);
}

#[test]
fn non_ascii_text_is_kept() {
    let record = record_with_context_value("grüße ☃");
    assert_eq!(format!("{},\"k\":\"grüße ☃\"}}", HEAD), record);
}

#[test]
fn context_type_of_values() {
    assert_eq!(ContextType::Raw, ContextType::new("null"));
    assert_eq!(ContextType::Raw, ContextType::new("42"));
    assert_eq!(ContextType::Raw, ContextType::new("true"));
    assert_eq!(ContextType::Raw, ContextType::new("false"));
    assert_eq!(ContextType::Raw, ContextType::new("-0"));
    assert_eq!(ContextType::Raw, ContextType::new("0.25"));
    assert_eq!(ContextType::Raw, ContextType::new("1E5"));
    assert_eq!(ContextType::Raw, ContextType::new("1e-5"));
    assert_eq!(ContextType::String, ContextType::new("hello"));
    assert_eq!(ContextType::String, ContextType::new(""));
    assert_eq!(ContextType::String, ContextType::new("TRUE"));
    assert_eq!(ContextType::String, ContextType::new(" 42"));
    assert_eq!(ContextType::String, ContextType::new("+42"));
    assert_eq!(ContextType::String, ContextType::new("10.0.0.3:5125"));
}

#[test]
fn json_numbers() {
    for number in ["0", "-0", "7", "10", "-12", "0.5", "12.25", "1e5", "1E+5", "1.5e-3", "-0.0e0"] {
        assert!(is_number(&chars_of(number)), "{} is a number", number);
    }
    for other in [
        "", "-", "01", "-01", "1.", ".5", "1e", "1e+", "1.5.2", "0x10", "1 ", "e5", "--1", "1e5.5",
        "١٢",
    ] {
        assert!(!is_number(&chars_of(other)), "{} is no number", other);
    }
}

#[test]
fn json_null_and_booleans() {
    assert!(is_null(&chars_of("null")));
    assert!(!is_null(&chars_of("nul")));
    assert!(!is_null(&chars_of("null ")));
    assert!(is_bool(&chars_of("true")));
    assert!(is_bool(&chars_of("false")));
    assert!(!is_bool(&chars_of("True")));
    assert!(!is_bool(&chars_of("")));
}

#[test]
fn format_seq_string_escapes_line_ends_and_drops_control_characters() {
    assert_eq!("plain text", format_seq_string("plain text"));
    assert_eq!("a\\nb", format_seq_string("a\nb"));
    assert_eq!("a\\rb", format_seq_string("a\rb"));
    assert_eq!("ab", format_seq_string("a\tb"));
    assert_eq!("ab", format_seq_string("a\u{0}b"));
    assert_eq!("a\u{1f}b".replace('\u{1f}', ""), format_seq_string("a\u{1f}b"));
    assert_eq!("a b", format_seq_string("a b"));
    assert_eq!("\"\\", format_seq_string("\"\\"));
    assert_eq!("", format_seq_string(""));
    assert_eq!("Ā", format_seq_string("Ā"));
}

#[test]
fn format_value_drops_control_characters() {
    assert_eq!("plain", format_value("plain"));
    assert_eq!("ab", format_value("a\nb"));
    assert_eq!("ab", format_value("a\r\n\tb"));
    assert_eq!(" ", format_value(" "));
    assert_eq!("Ā", format_value("Ā"));
    assert_eq!("", format_value(""));
}

#[test]
fn body_joins_records_with_carriage_return_and_line_feed() {
    let params = PopulatedParams::new(vec![pair("Application", "demo")]);
    let first = Arc::new(event(LogLevel::Info, None));
    let second = Arc::new(event(LogLevel::Error, Some(vec![pair("k", "v")])));
    let one = serialize(String::new(), &first, &params);
    let two = serialize(String::new(), &second, &params);
    let body = compile_body(&params, &[first.clone(), second.clone()]);
    assert_eq!(format!("{}\r\n{}", one, two).into_bytes(), body);
    assert_eq!(one.clone().into_bytes(), compile_body(&params, &[first]));
    assert_eq!(Vec::<u8>::new(), compile_body(&params, &[]));
}
