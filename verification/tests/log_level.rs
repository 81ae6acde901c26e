use noos::logger::{level_of_name, level_of_number};
use noos::LogLevel;

#[test]
fn reads_levels_from_numbers() {
    assert_eq!("0".parse::<LogLevel>(), Ok(LogLevel::Debug));
    assert_eq!("1".parse::<LogLevel>(), Ok(LogLevel::Info));
    assert_eq!("2".parse::<LogLevel>(), Ok(LogLevel::Warn));
    assert_eq!("3".parse::<LogLevel>(), Ok(LogLevel::Error));
    assert_eq!(LogLevel::parse("+2"), Ok(LogLevel::Warn));
    assert_eq!(LogLevel::parse("003"), Ok(LogLevel::Error));
}

#[test]
fn reads_levels_from_names_of_either_case() {
    assert_eq!(LogLevel::parse("debug"), Ok(LogLevel::Debug));
    assert_eq!(LogLevel::parse("INFO"), Ok(LogLevel::Info));
    assert_eq!(LogLevel::parse("Warn"), Ok(LogLevel::Warn));
    assert_eq!(LogLevel::parse("eRRoR"), Ok(LogLevel::Error));
}

#[test]
fn refuses_other_text() {
    assert_eq!(LogLevel::parse("4"), Err("Invalid log level '4'".to_string()));
    assert_eq!(LogLevel::parse("255"), Err("Invalid log level '255'".to_string()));
    assert_eq!(LogLevel::parse("256"), Err("Invalid log level '256'".to_string()));
    assert_eq!(LogLevel::parse("-1"), Err("Invalid log level '-1'".to_string()));
    assert_eq!(LogLevel::parse(""), Err("Invalid log level ''".to_string()));
    assert_eq!(LogLevel::parse(" info"), Err("Invalid log level ' info'".to_string()));
    assert_eq!(LogLevel::parse("verbose"), Err("Invalid log level 'verbose'".to_string()));
}

#[test]
fn levels_are_ordered_by_severity() {
    assert!(LogLevel::Debug < LogLevel::Info);
    assert!(LogLevel::Info < LogLevel::Warn);
    assert!(LogLevel::Warn < LogLevel::Error);
    assert_eq!(LogLevel::Debug.severity(), 0);
    assert_eq!(LogLevel::Error.severity(), 3);
    assert!(LogLevel::Warn.is_shown_at(LogLevel::Info));
    assert!(LogLevel::Warn.is_shown_at(LogLevel::Warn));
    assert!(!LogLevel::Info.is_shown_at(LogLevel::Warn));
    assert_eq!(LogLevel::default(), LogLevel::Info);
}

#[test]
fn levels_have_names() {
    assert_eq!(LogLevel::Debug.to_string(), "Debug");
    assert_eq!(LogLevel::Info.to_string(), "Info");
    assert_eq!(LogLevel::Warn.name(), "Warn");
    assert_eq!(LogLevel::Error.name(), "Error");
}

#[test]
fn names_in_lowercase_name_levels() {
    assert_eq!(level_of_name("debug"), Some(LogLevel::Debug));
    assert_eq!(level_of_name("info"), Some(LogLevel::Info));
    assert_eq!(level_of_name("warn"), Some(LogLevel::Warn));
    assert_eq!(level_of_name("error"), Some(LogLevel::Error));
    assert_eq!(level_of_name("Debug"), None);
    assert_eq!(level_of_name("warning"), None);
    assert_eq!(level_of_name("inf"), None);
    assert_eq!(level_of_name(""), None);
    assert_eq!(level_of_name("0"), None);
}

#[test]
fn ranks_name_levels() {
    assert_eq!(level_of_number(0), Some(LogLevel::Debug));
    assert_eq!(level_of_number(1), Some(LogLevel::Info));
    assert_eq!(level_of_number(2), Some(LogLevel::Warn));
    assert_eq!(level_of_number(3), Some(LogLevel::Error));
    assert_eq!(level_of_number(4), None);
    assert_eq!(level_of_number(255), None);
}

#[test]
fn refusal_quotes_the_text() {
    assert_eq!(LogLevel::refusal("loud"), "Invalid log level 'loud'");
    assert_eq!(LogLevel::refusal(""), "Invalid log level ''");
}
