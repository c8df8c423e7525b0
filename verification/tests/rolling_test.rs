use fastlog::appender::{Command, FastLogRecord, Level};
use fastlog::plugin::file_split::{
    FileOp, FileSplitAppender, KeepType, LogSize, Rolling, RollingType, rotated_count,
    rotated_name,
};

fn formatted_record(text: &str) -> FastLogRecord {
    FastLogRecord {
        command: Command::CommandRecord,
        level: Level::Info,
        target: String::new(),
        args: String::new(),
        mod_path: String::new(),
        file: String::new(),
        line: None,
        now: 0,
        formated: text.to_string(),
    }
}

#[test]
fn log_size_lengths() {
    assert_eq!(LogSize::B(7).get_len(), 7);
    assert_eq!(LogSize::KB(2).get_len(), 2048);
    assert_eq!(LogSize::MB(1).get_len(), 1048576);
    assert_eq!(LogSize::GB(1).get_len(), 1073741824);
    assert_eq!(LogSize::GB(u64::MAX).get_len(), u64::MAX);
}

#[test]
fn rolling_triggers() {
    let by_size = Rolling::new(RollingType::BySize(LogSize::B(10)));
    assert!(by_size.should_roll(10, 0, 0));
    assert!(!by_size.should_roll(9, 0, 0));
    let by_time = Rolling::new(RollingType::ByDuration(1_000_000));
    assert!(by_time.should_roll(0, 5_000_000, 6_000_000));
    assert!(!by_time.should_roll(0, 5_000_000, 5_999_999));
}

#[test]
fn rotated_name_embeds_timestamp() {
    let name = rotated_name("temp.log", 0);
    assert_eq!(name, "temp1970-01-01T00-00-00.000000.log");
}

#[test]
fn do_logs_writes_then_rotates_once_over_the_bound() {
    let mut a = FileSplitAppender::new(
        "target/logs/".to_string(),
        Rolling::new(RollingType::BySize(LogSize::B(10))),
        KeepType::All,
        0,
    );
    // Under the bound: one write, no rotation.
    let ops = a.do_logs(&vec![formatted_record("12345\n")], 1);
    assert_eq!(ops.len(), 1);
    match &ops[0] {
        FileOp::Write(t) => assert_eq!(t, "12345\n"),
        _ => unreachable!(),
    }
    assert_eq!(a.temp_size, 6);
    // This batch crosses the bound: write, rotate, pack.
    let ops = a.do_logs(&vec![formatted_record("abcdefgh\n")], 2);
    assert_eq!(ops.len(), 3);
    match &ops[1] {
        FileOp::Rotate(t) => assert_eq!(t, &rotated_name("temp.log", 2)),
        _ => unreachable!(),
    }
    match &ops[2] {
        FileOp::Pack(t) => assert_eq!(t, &rotated_name("temp.log", 2)),
        _ => unreachable!(),
    }
    assert_eq!(a.temp_size, 0);
    assert_eq!(a.open_time, 2);
}

#[test]
fn do_logs_counts_bytes_not_characters() {
    let mut a = FileSplitAppender::new(
        "target/logs/".to_string(),
        Rolling::new(RollingType::BySize(LogSize::B(100))),
        KeepType::All,
        0,
    );
    // Six characters, seven bytes: the accented letter takes two.
    let ops = a.do_logs(&vec![formatted_record("h\u{e9}llo\n")], 1);
    assert_eq!(ops.len(), 1);
    assert_eq!(a.temp_size, 7);
}

fn names(v: &[&str]) -> Vec<String> {
    v.iter().map(|s| s.to_string()).collect()
}

#[test]
fn keep_all_deletes_nothing() {
    let files = names(&["temp.log", "temp1970-01-01T00-00-00.000001.log"]);
    let del = KeepType::All.do_keep(&files, "temp.log", 0);
    assert_eq!(del, vec![false, false]);
}

#[test]
fn keep_num_retains_the_most_recent() {
    let files = names(&[
        "temp1970-01-01T00-00-00.000001.log",
        "temp.log",
        "temp1970-01-01T00-00-00.000003.log",
        "temp1970-01-01T00-00-00.000002.log",
        "unrelated.txt",
    ]);
    let del = KeepType::KeepNum(2).do_keep(&files, "temp.log", 0);
    // The two newest rotated files stay; the oldest goes; the active file
    // and the unrelated entry are untouched.
    assert_eq!(del, vec![true, false, false, false, false]);
}

#[test]
fn keep_num_zero_deletes_every_rotated_file() {
    let files = names(&[
        "temp.log",
        "temp1970-01-01T00-00-00.000001.log",
        "temp1970-01-01T00-00-00.000002.log",
    ]);
    let del = KeepType::KeepNum(0).do_keep(&files, "temp.log", 0);
    assert_eq!(del, vec![false, true, true]);
}

#[test]
fn keep_num_larger_than_available_keeps_all() {
    let files = names(&["temp.log", "temp1970-01-01T00-00-00.000001.log"]);
    let del = KeepType::KeepNum(5).do_keep(&files, "temp.log", 0);
    assert_eq!(del, vec![false, false]);
}

#[test]
fn retention_reports_the_considered_count() {
    let files = names(&[
        "temp.log",
        "temp1970-01-01T00-00-00.000001.log",
        "temp1970-01-01T00-00-00.000002.log",
        "unrelated.txt",
    ]);
    assert_eq!(rotated_count(&files, "temp.log"), 2);
    let one = names(&["temp.log", "temp1970-01-01T00-00-00.000001.log"]);
    assert_eq!(rotated_count(&one, "temp.log"), 1);
}

#[test]
fn keep_time_deletes_only_older_stamps() {
    let old_name = rotated_name("temp.log", 1_000_000);
    let new_name = rotated_name("temp.log", 9_000_000);
    let files = vec![old_name, "temp.log".to_string(), new_name];
    // Cutoff is now - d = 5_000_000.
    let del = KeepType::KeepTime(5_000_000).do_keep(&files, "temp.log", 10_000_000);
    assert_eq!(del, vec![true, false, false]);
}
