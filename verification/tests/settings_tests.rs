use my_logger::settings::{
    spit_key_value, SeqLoggerSettings, SettingsError, DEFAULT_FLUSH_CHUNK, DEFAULT_FLUSH_SLEEP,
};
use std::time::Duration;

#[test]
fn test_split_key_value() {
    let str = "A=B";

    let (key, value) = spit_key_value(str);

    assert_eq!("A", key);
    assert_eq!("B", value);
}

#[test]
fn test_split_key_value_empty_value() {
    let str = "A=";

    let (key, value) = spit_key_value(str);

    assert_eq!("A", key);
    assert_eq!("", value);
}

#[test]
fn test_try_parse_correct_correct_values() {
    let str = "url=seq.test.com;apikey=value;flushlogschunk=100;flushdelay=1;queuesize=10";

    let result = SeqLoggerSettings::try_parse(str);
    assert!(result.is_ok());
    let result = result.unwrap();
    assert_eq!("seq.test.com", result.url);
    assert_eq!(Some("value".to_string()), result.api_key);
    assert_eq!(100, result.max_logs_flush_chunk);
    assert_eq!(Duration::from_secs(1u64), result.flush_delay);
    assert_eq!(Some(10), result.queue_size);
}

#[test]
fn test_try_parse_default_values() {
    let str = "url=seq.test.com";

    let result = SeqLoggerSettings::try_parse(str);

    assert!(result.is_ok());
    let result = result.unwrap();
    assert_eq!("seq.test.com", result.url);
    assert!(result.api_key.is_none());
    assert_eq!(DEFAULT_FLUSH_CHUNK, result.max_logs_flush_chunk);
    assert_eq!(DEFAULT_FLUSH_SLEEP, result.flush_delay.as_secs());
    assert!(result.queue_size.is_none())
}

#[test]
fn connection_string_with_chunk_and_delay() {
    let settings = SeqLoggerSettings::try_parse("url=x.test;flushlogschunk=10;flushdelay=2").unwrap();
    assert_eq!("x.test", settings.url);
    assert_eq!(10, settings.max_logs_flush_chunk);
    assert_eq!(Duration::from_secs(2), settings.flush_delay);
    assert_eq!(None, settings.api_key);
    assert_eq!(None, settings.queue_size);
}

#[test]
fn connection_string_without_url_is_refused() {
    let result = SeqLoggerSettings::try_parse("apikey=k;flushdelay=2");
    assert!(matches!(result, Err(SettingsError::NoUrl)));
    assert_eq!(
        "There is no URL parameter in seq connection string",
        result.unwrap_err().message()
    );
}

#[test]
fn item_without_equals_sign_is_refused() {
    let result = SeqLoggerSettings::try_parse("url=x.test;broken");
    match result {
        Err(SettingsError::InvalidKeyValue(item)) => assert_eq!("broken", item),
        _ => panic!("the item without '=' was not refused"),
    }
    let empty = SeqLoggerSettings::try_parse("");
    assert!(matches!(empty, Err(SettingsError::InvalidKeyValue(_))));
    let trailing = SeqLoggerSettings::try_parse("url=x.test;");
    assert!(matches!(trailing, Err(SettingsError::InvalidKeyValue(_))));
}

#[test]
fn unknown_key_is_refused() {
    let result = SeqLoggerSettings::try_parse("url=x.test;colour=red");
    match result {
        Err(SettingsError::InvalidKey(key)) => {
            assert_eq!("colour", key);
            assert_eq!(
                "Invalid key colour of seq connection string ",
                SettingsError::InvalidKey(key).message()
            );
        }
        _ => panic!("the unknown key was not refused"),
    }
}

#[test]
fn values_that_are_no_numbers_are_refused() {
    assert!(matches!(
        SeqLoggerSettings::try_parse("url=x;flushlogschunk=ten"),
        Err(SettingsError::FlushLogsChunkNotANumber)
    ));
    assert!(matches!(
        SeqLoggerSettings::try_parse("url=x;flushdelay="),
        Err(SettingsError::FlushDelayNotANumber)
    ));
    assert!(matches!(
        SeqLoggerSettings::try_parse("url=x;queuesize=-1"),
        Err(SettingsError::QueueSizeNotANumber)
    ));
    assert!(matches!(
        SeqLoggerSettings::try_parse("url=x;flushdelay=18446744073709551616"),
        Err(SettingsError::FlushDelayNotANumber)
    ));
    assert_eq!(
        "FlushLogsChunk must be a number",
        SettingsError::FlushLogsChunkNotANumber.message()
    );
    assert_eq!("FlushDelay must be a number", SettingsError::FlushDelayNotANumber.message());
    assert_eq!("QueueSize must be a number", SettingsError::QueueSizeNotANumber.message());
}

#[test]
fn numbers_may_carry_a_plus_sign_and_reach_the_largest_value() {
    let settings =
        SeqLoggerSettings::try_parse("url=x;flushdelay=+18446744073709551615;queuesize=+7").unwrap();
    assert_eq!(Duration::from_secs(u64::MAX), settings.flush_delay);
    assert_eq!(Some(7), settings.queue_size);
}

#[test]
fn later_items_override_earlier_ones_and_values_may_hold_equals_signs() {
    let settings = SeqLoggerSettings::try_parse("url=a;url=b=c;apikey=;apikey=k=1").unwrap();
    assert_eq!("b=c", settings.url);
    assert_eq!(Some("k=1".to_string()), settings.api_key);
}

#[test]
fn first_refused_item_decides_the_error() {
    let result = SeqLoggerSettings::try_parse("colour=red;flushdelay=x");
    assert!(matches!(result, Err(SettingsError::InvalidKey(_))));
    let result = SeqLoggerSettings::try_parse("flushdelay=x;colour=red");
    assert!(matches!(result, Err(SettingsError::FlushDelayNotANumber)));
}

#[test]
fn split_key_value_splits_at_the_first_equals_sign() {
    let (key, value) = spit_key_value("k=v=w");
    assert_eq!("k", key);
    assert_eq!("v=w", value);
    let (key, value) = spit_key_value("=v");
    assert_eq!("", key);
    assert_eq!("v", value);
}
