use fastlog::appender::{Command, FastLogFormat, FastLogRecord, Level, LevelFilter};
use fastlog::date::LogDate;

fn record(level: Level, args: &str, now: u64) -> FastLogRecord {
    FastLogRecord {
        command: Command::CommandRecord,
        level,
        target: String::new(),
        args: args.to_string(),
        mod_path: "m".to_string(),
        file: "f.rs".to_string(),
        line: Some(7),
        now,
        formated: String::new(),
    }
}

#[test]
fn date_of_epoch_start() {
    let d = LogDate::from_micros(0);
    assert_eq!(d.year, 1970);
    assert_eq!(d.mon, 1);
    assert_eq!(d.day, 1);
    assert_eq!(d.hour, 0);
    assert_eq!(d.min, 0);
    assert_eq!(d.sec, 0);
    assert_eq!(d.micro, 0);
    assert_eq!(d.display(), "1970-01-01 00:00:00.000000");
}

#[test]
fn date_of_known_instant() {
    // 2021-03-04 05:06:07.000008 UTC
    let d = LogDate::from_micros(1614834367000008);
    assert_eq!(d.display(), "2021-03-04 05:06:07.000008");
    assert_eq!(d.file_stamp(), "2021-03-04T05-06-07.000008");
}

#[test]
fn date_of_leap_day_end() {
    // 2000-02-29 23:59:59.999999 UTC, a leap day of a century leap year
    let d = LogDate::from_micros(951868799999999);
    assert_eq!(d.display(), "2000-02-29 23:59:59.999999");
}

#[test]
fn format_plain_line() {
    let fmt = FastLogFormat::new().set_duration(0).set_display_line_level(LevelFilter::Warn);
    let mut r = record(Level::Info, "hello", 0);
    let line = fmt.do_format(&mut r);
    assert_eq!(line, "1970-01-01 00:00:00.000000    INFO m - hello\n");
    assert_eq!(r.formated, line);
}

#[test]
fn format_line_with_location() {
    let fmt = FastLogFormat::new().set_duration(0).set_display_line_level(LevelFilter::Warn);
    let mut r = record(Level::Error, "boom", 0);
    let line = fmt.do_format(&mut r);
    assert_eq!(line, "1970-01-01 00:00:00.000000    ERROR m - boom  f.rs:7\n");
}

#[test]
fn format_applies_zone_offset() {
    let fmt = FastLogFormat::new().set_duration(3_600_000_000).set_display_line_level(
        LevelFilter::Warn,
    );
    let mut r = record(Level::Info, "x", 0);
    let line = fmt.do_format(&mut r);
    assert!(line.starts_with("1970-01-01 01:00:00.000000"));
}

#[test]
fn format_leaves_control_records_alone() {
    let fmt = FastLogFormat::new().set_duration(0);
    let mut r = record(Level::Info, "x", 0);
    r.command = Command::CommandExit;
    let line = fmt.do_format(&mut r);
    assert_eq!(line, "");
    assert_eq!(r.formated, "");
}

#[test]
fn level_names_and_order() {
    assert_eq!(Level::Error.name(), "ERROR");
    assert_eq!(Level::Warn.name(), "WARN");
    assert_eq!(Level::Info.name(), "INFO");
    assert_eq!(Level::Debug.name(), "DEBUG");
    assert_eq!(Level::Trace.name(), "TRACE");
    assert!(Level::Error.to_level_filter().le(&LevelFilter::Warn));
    assert!(!Level::Info.to_level_filter().le(&LevelFilter::Warn));
}

#[test]
fn command_equality_ignores_token() {
    assert_eq!(Command::CommandFlush(1), Command::CommandFlush(2));
    assert!(Command::CommandRecord != Command::CommandExit);
    assert_eq!(Command::CommandRecord.to_i32(), 1);
    assert_eq!(Command::CommandExit.to_i32(), 2);
    assert_eq!(Command::CommandFlush(9).to_i32(), 3);
}
