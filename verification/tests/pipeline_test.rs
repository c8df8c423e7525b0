use fastlog::appender::{Command, FastLogFormat, FastLogRecord, Level, LevelFilter};
use fastlog::fastlog::{
    exit, flush, flush_and_drain, init, print, shutdown, Config, EmitOutcome, LogFilter, Logger,
};

fn config(chan_len: usize, sinks: usize, filters: Vec<LogFilter>) -> Config {
    Config {
        level: LevelFilter::Trace,
        chan_len,
        format: FastLogFormat::new().set_duration(0),
        filters,
        appends: sinks,
    }
}

fn emit(l: &mut Logger, level: Level, args: &str) -> EmitOutcome {
    l.log(
        level,
        String::new(),
        args.to_string(),
        "m".to_string(),
        "f.rs".to_string(),
        None,
        0,
    )
}

/// Every record sink `i` has been handed, in order.
fn observed(l: &Logger, i: usize) -> Vec<FastLogRecord> {
    let mut out = Vec::new();
    for idx in &l.sinks[i].delivered {
        for r in &l.batches[*idx] {
            out.push(r.clone());
        }
    }
    out
}

#[test]
fn init_rejects_empty_sink_list() {
    let r = init(config(4, 0, vec![]));
    assert!(r.is_err());
    match r {
        Err(e) => assert_eq!(e.message().as_str(), "[fastlog] appends can not be empty!"),
        Ok(_) => unreachable!(),
    }
}

#[test]
fn three_records_in_order_then_flush() {
    let mut l = init(config(4, 1, vec![])).unwrap();
    assert_eq!(emit(&mut l, Level::Info, "a"), EmitOutcome::Sent);
    assert_eq!(emit(&mut l, Level::Info, "b"), EmitOutcome::Sent);
    assert_eq!(emit(&mut l, Level::Info, "c"), EmitOutcome::Sent);
    let token = flush(&mut l).unwrap();
    let exited = l.formatter_step();
    assert!(!exited);
    let released = l.sink_step(0);
    let seen = observed(&l, 0);
    assert_eq!(seen.len(), 4);
    assert!(seen[0].formated.contains(" - a"));
    assert!(seen[1].formated.contains(" - b"));
    assert!(seen[2].formated.contains(" - c"));
    assert_eq!(seen[3].command.to_i32(), 3);
    assert_eq!(released, vec![token]);
}

#[test]
fn two_sinks_see_the_same_thousand_records() {
    let mut l = init(config(0, 2, vec![])).unwrap();
    for t in 0..1000u32 {
        assert_eq!(emit(&mut l, Level::Info, &format!("{}", t)), EmitOutcome::Sent);
    }
    flush(&mut l).unwrap();
    l.formatter_step();
    l.sink_step(0);
    l.sink_step(1);
    for i in 0..2usize {
        let seen = observed(&l, i);
        assert_eq!(seen.len(), 1001);
        for t in 0..1000usize {
            assert_eq!(seen[t].command.to_i32(), 1);
            assert!(seen[t].formated.contains(&format!(" - {}\n", t)));
        }
    }
}

#[test]
fn filter_chain_drops_records() {
    let mut l = init(config(4, 1, vec![LogFilter::MinLevel(Level::Warn)])).unwrap();
    assert_eq!(emit(&mut l, Level::Debug, "d"), EmitOutcome::Filtered);
    assert_eq!(emit(&mut l, Level::Error, "e"), EmitOutcome::Sent);
    l.formatter_step();
    l.sink_step(0);
    let seen = observed(&l, 0);
    assert_eq!(seen.len(), 1);
    assert!(seen[0].formated.contains(" - e"));
}

#[test]
fn threshold_gates_before_filters() {
    let mut l = init(config(4, 1, vec![])).unwrap();
    l.cfg.level = LevelFilter::Error;
    assert_eq!(emit(&mut l, Level::Warn, "w"), EmitOutcome::Filtered);
    assert_eq!(emit(&mut l, Level::Error, "e"), EmitOutcome::Sent);
}

#[test]
fn print_is_delivered_unchanged() {
    let mut l = init(config(4, 1, vec![])).unwrap();
    print(&mut l, "raw line\n".to_string(), 0).unwrap();
    l.formatter_step();
    l.sink_step(0);
    let seen = observed(&l, 0);
    assert_eq!(seen.len(), 1);
    assert_eq!(seen[0].formated, "raw line\n");
}

#[test]
fn bounded_ingress_reports_full() {
    let mut l = init(config(2, 1, vec![])).unwrap();
    assert_eq!(emit(&mut l, Level::Info, "1"), EmitOutcome::Sent);
    assert_eq!(emit(&mut l, Level::Info, "2"), EmitOutcome::Sent);
    assert_eq!(emit(&mut l, Level::Info, "3"), EmitOutcome::Full);
    l.formatter_step();
    assert_eq!(emit(&mut l, Level::Info, "3"), EmitOutcome::Sent);
}

#[test]
fn flush_on_a_full_ingress_reports_its_error() {
    let mut l = init(config(1, 1, vec![])).unwrap();
    assert_eq!(emit(&mut l, Level::Info, "x"), EmitOutcome::Sent);
    match flush(&mut l) {
        Err(e) => assert_eq!(e.message().as_str(), "[fastlog] flush fail!"),
        Ok(_) => unreachable!(),
    }
}

#[test]
fn exit_drains_then_stops_workers() {
    let mut l = init(config(4, 1, vec![])).unwrap();
    emit(&mut l, Level::Info, "last");
    exit(&mut l).unwrap();
    let exited = l.formatter_step();
    assert!(exited);
    assert!(!l.formatter_alive);
    l.sink_step(0);
    assert!(!l.sinks[0].alive);
    let seen = observed(&l, 0);
    assert_eq!(seen.len(), 2);
    assert!(seen[0].formated.contains(" - last"));
    assert_eq!(seen[1].command.to_i32(), 2);
}

#[test]
fn flush_and_drain_hands_everything_over_before_returning() {
    let mut l = init(config(4, 1, vec![])).unwrap();
    assert_eq!(emit(&mut l, Level::Info, "a"), EmitOutcome::Sent);
    assert_eq!(emit(&mut l, Level::Info, "b"), EmitOutcome::Sent);
    assert_eq!(emit(&mut l, Level::Info, "c"), EmitOutcome::Sent);
    let token = flush_and_drain(&mut l).unwrap();
    let seen = observed(&l, 0);
    assert_eq!(seen.len(), 4);
    assert!(seen[0].formated.contains(" - a"));
    assert!(seen[1].formated.contains(" - b"));
    assert!(seen[2].formated.contains(" - c"));
    match seen[3].command {
        fastlog::appender::Command::CommandFlush(t) => assert_eq!(t, token),
        _ => unreachable!(),
    }
}

#[test]
fn shutdown_delivers_everything_then_stops_all_workers() {
    let mut l = init(config(8, 2, vec![])).unwrap();
    emit(&mut l, Level::Info, "one");
    emit(&mut l, Level::Info, "two");
    shutdown(&mut l).unwrap();
    assert!(!l.formatter_alive);
    for i in 0..2usize {
        assert!(!l.sinks[i].alive);
        let seen = observed(&l, i);
        assert_eq!(seen.len(), 3);
        assert!(seen[0].formated.contains(" - one"));
        assert!(seen[1].formated.contains(" - two"));
        assert_eq!(seen[2].command.to_i32(), 2);
    }
}

#[test]
fn flush_tokens_are_fresh_and_released_in_order() {
    let mut l = init(config(0, 1, vec![])).unwrap();
    let t1 = flush(&mut l).unwrap();
    let t2 = flush(&mut l).unwrap();
    assert!(t1 != t2);
    l.formatter_step();
    let released = l.sink_step(0);
    assert_eq!(released, vec![t1, t2]);
}
