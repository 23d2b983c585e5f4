use cookbook::dev_tools_logging::foo;
use cookbook::dev_tools_logging::foo::bar;
use cookbook::dev_tools_logging::{
    custom_log, entry, logs_per_module, with_timestamp, ConsoleLogger, Entry, Level,
};

fn pairs(entries: &[Entry]) -> Vec<(Level, String)> {
    entries.iter().map(|e| (e.level, e.message.clone())).collect()
}

#[test]
fn bar_reports_three_records() {
    assert_eq!(
        pairs(&bar::run()),
        vec![
            (Level::Warn, "[bar] warn".to_string()),
            (Level::Info, "[bar] info".to_string()),
            (Level::Debug, "[bar] debug".to_string()),
        ]
    );
}

#[test]
fn foo_reports_its_own_records_then_those_of_bar() {
    let all = pairs(&foo::run());
    assert_eq!(all.len(), 6);
    assert_eq!(
        all[..3],
        [
            (Level::Warn, "[foo] warn".to_string()),
            (Level::Info, "[foo] info".to_string()),
            (Level::Debug, "[foo] debug".to_string()),
        ]
    );
    assert_eq!(all[3..], pairs(&bar::run())[..]);
}

#[test]
fn per_module_records_start_at_the_root() {
    let all = pairs(&logs_per_module());
    assert_eq!(all.len(), 9);
    assert_eq!(all[0], (Level::Warn, "[root] warn".to_string()));
    assert_eq!(all[1], (Level::Info, "[root] info".to_string()));
    assert_eq!(all[2], (Level::Debug, "[root] debug".to_string()));
    assert_eq!(all[3..], pairs(&foo::run())[..]);
}

#[test]
fn console_logger_lets_info_and_above_through() {
    let logger = ConsoleLogger;
    assert!(logger.enabled(Level::Error));
    assert!(logger.enabled(Level::Warn));
    assert!(logger.enabled(Level::Info));
    assert!(!logger.enabled(Level::Debug));
    assert!(!logger.enabled(Level::Trace));
}

#[test]
fn levels_rank_and_name_as_the_log_crate_has_them() {
    let ours = [Level::Error, Level::Warn, Level::Info, Level::Debug, Level::Trace];
    let theirs = [
        log::Level::Error,
        log::Level::Warn,
        log::Level::Info,
        log::Level::Debug,
        log::Level::Trace,
    ];
    for (a, b) in ours.iter().zip(theirs.iter()) {
        assert_eq!(a.severity() as usize, *b as usize);
        assert_eq!(a.as_str(), b.as_str());
        assert_eq!(ConsoleLogger.enabled(*a), *b <= log::Level::Info);
    }
}

#[test]
fn console_line_format() {
    let logger = ConsoleLogger;
    assert_eq!(
        logger.log(Level::Warn, "warning"),
        Some("Rust says: WARN - warning".to_string())
    );
    assert_eq!(logger.log(Level::Debug, "hidden"), None);
}

#[test]
fn custom_log_prints_every_record() {
    let entries = custom_log();
    assert_eq!(
        ConsoleLogger.lines(&entries),
        vec![
            "Rust says: INFO - hello log".to_string(),
            "Rust says: WARN - warning".to_string(),
            "Rust says: ERROR - oops".to_string(),
        ]
    );
}

#[test]
fn console_lines_skip_debug_records() {
    let entries = foo::run();
    assert_eq!(
        ConsoleLogger.lines(&entries),
        vec![
            "Rust says: WARN - [foo] warn".to_string(),
            "Rust says: INFO - [foo] info".to_string(),
            "Rust says: WARN - [bar] warn".to_string(),
            "Rust says: INFO - [bar] info".to_string(),
        ]
    );
    let none = vec![entry(Level::Trace, "t"), entry(Level::Debug, "d")];
    assert!(ConsoleLogger.lines(&none).is_empty());
}

#[test]
fn line_with_the_time_in_front() {
    assert_eq!(
        with_timestamp("2024-02-29T23:59:59", Level::Warn, "warn"),
        "2024-02-29T23:59:59 [WARN] - warn"
    );
    assert_eq!(with_timestamp("", Level::Trace, ""), " [TRACE] - ");
}
