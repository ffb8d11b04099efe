use my_logger::LogLevel;

#[test]
fn level_codes() {
    assert_eq!(0, LogLevel::Info.to_u8());
    assert_eq!(1, LogLevel::Warning.to_u8());
    assert_eq!(2, LogLevel::Error.to_u8());
    assert_eq!(3, LogLevel::FatalError.to_u8());
    assert_eq!(4, LogLevel::Debug.to_u8());
}

#[test]
fn level_of_code_falls_back_to_info() {
    assert_eq!(LogLevel::Info, LogLevel::from_u8(0));
    assert_eq!(LogLevel::Warning, LogLevel::from_u8(1));
    assert_eq!(LogLevel::Error, LogLevel::from_u8(2));
    assert_eq!(LogLevel::FatalError, LogLevel::from_u8(3));
    assert_eq!(LogLevel::Debug, LogLevel::from_u8(4));
    assert_eq!(LogLevel::Info, LogLevel::from_u8(5));
    assert_eq!(LogLevel::Info, LogLevel::from_u8(255));
}

#[test]
fn level_names() {
    assert_eq!("Info", LogLevel::Info.as_str());
    assert_eq!("Warning", LogLevel::Warning.as_str());
    assert_eq!("Error", LogLevel::Error.as_str());
    assert_eq!("FatalError", LogLevel::FatalError.as_str());
    assert_eq!("Debug", LogLevel::Debug.as_str());
    assert_eq!("FatalError", LogLevel::FatalError.to_string());
    assert_eq!("Info", LogLevel::Info.to_string());
}

#[test]
fn level_of_name_falls_back_to_info() {
    assert_eq!(LogLevel::Warning, LogLevel::from_str("Warning"));
    assert_eq!(LogLevel::Error, LogLevel::from_str("Error"));
    assert_eq!(LogLevel::FatalError, LogLevel::from_str("FatalError"));
    assert_eq!(LogLevel::Debug, LogLevel::from_str("Debug"));
    assert_eq!(LogLevel::Info, LogLevel::from_str("Info"));
    assert_eq!(LogLevel::Info, LogLevel::from_str("warning"));
    assert_eq!(LogLevel::Info, LogLevel::from_str(""));
    assert_eq!(LogLevel::Info, LogLevel::from_str("Fatal"));
}

#[test]
fn level_round_trips() {
    let levels = [
        LogLevel::Info,
        LogLevel::Warning,
        LogLevel::Error,
        LogLevel::FatalError,
        LogLevel::Debug,
    ];
    for level in levels {
        assert_eq!(level, LogLevel::from_u8(level.to_u8()));
        assert_eq!(level, LogLevel::from_str(level.as_str()));
    }
}

#[test]
fn errors_and_fatal_errors_are_told_apart_from_the_rest() {
    assert!(LogLevel::Error.is_error_or_fatal_error());
    assert!(LogLevel::FatalError.is_error_or_fatal_error());
    assert!(!LogLevel::Info.is_error_or_fatal_error());
    assert!(!LogLevel::Warning.is_error_or_fatal_error());
    assert!(!LogLevel::Debug.is_error_or_fatal_error());
}
