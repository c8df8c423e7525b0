use vstd::prelude::*;
use vstd::string::StringExecFns;
use crate::date::{spec_date, date_display, pad_right, dec_seq, LogDate};

verus! {

// ---------------------------------------------------------------------------
// Levels.

/// Severity of a single record, most severe first.
#[derive(Clone, Copy, Debug, PartialEq, Eq, Structural)]
pub enum Level {
    Error,
    Warn,
    Info,
    Debug,
    Trace,
}

/// A severity threshold; `Off` admits nothing.
#[derive(Clone, Copy, Debug, PartialEq, Eq, Structural)]
pub enum LevelFilter {
    Off,
    Error,
    Warn,
    Info,
    Debug,
    Trace,
}

/// Numeric rank of a level: lower is more severe.
pub open spec fn level_rank(l: Level) -> int {
    match l {
        Level::Error => 1,
        Level::Warn => 2,
        Level::Info => 3,
        Level::Debug => 4,
        Level::Trace => 5,
    }
}

/// Numeric rank of a threshold: `Off` is 0, below every level.
pub open spec fn filter_rank(f: LevelFilter) -> int {
    match f {
        LevelFilter::Off => 0,
        LevelFilter::Error => 1,
        LevelFilter::Warn => 2,
        LevelFilter::Info => 3,
        LevelFilter::Debug => 4,
        LevelFilter::Trace => 5,
    }
}

/// The threshold that admits exactly this level and the more severe ones.
pub open spec fn spec_to_level_filter(l: Level) -> LevelFilter {
    match l {
        Level::Error => LevelFilter::Error,
        Level::Warn => LevelFilter::Warn,
        Level::Info => LevelFilter::Info,
        Level::Debug => LevelFilter::Debug,
        Level::Trace => LevelFilter::Trace,
    }
}

/// The rendered name of a level, as it appears in a formatted line.
pub open spec fn level_name(l: Level) -> Seq<char> {
    match l {
        Level::Error => "ERROR"@,
        Level::Warn => "WARN"@,
        Level::Info => "INFO"@,
        Level::Debug => "DEBUG"@,
        Level::Trace => "TRACE"@,
    }
}

impl Level {
    pub fn to_level_filter(&self) -> (r: LevelFilter)
        ensures
            r == spec_to_level_filter(*self),
    {
        match self {
            Level::Error => LevelFilter::Error,
            Level::Warn => LevelFilter::Warn,
            Level::Info => LevelFilter::Info,
            Level::Debug => LevelFilter::Debug,
            Level::Trace => LevelFilter::Trace,
        }
    }

    pub fn name(&self) -> (r: &'static str)
        ensures
            r@ == level_name(*self),
    {
        match self {
            Level::Error => "ERROR",
            Level::Warn => "WARN",
            Level::Info => "INFO",
            Level::Debug => "DEBUG",
            Level::Trace => "TRACE",
        }
    }
}

impl LevelFilter {
    /// Whether this threshold is at most `other`, in rank order.
    pub fn le(&self, other: &LevelFilter) -> (r: bool)
        ensures
            r == (filter_rank(*self) <= filter_rank(*other)),
    {
        self.rank() <= other.rank()
    }

    fn rank(&self) -> (r: u8)
        ensures
            r as int == filter_rank(*self),
    {
        match self {
            LevelFilter::Off => 0,
            LevelFilter::Error => 1,
            LevelFilter::Warn => 2,
            LevelFilter::Info => 3,
            LevelFilter::Debug => 4,
            LevelFilter::Trace => 5,
        }
    }
}

// ---------------------------------------------------------------------------
// Commands and records.

/// Control word carried by every record. A flush barrier is identified by a
/// plain token number; the process around the engine maps each token to the
/// barrier object its callers wait on.
#[derive(Clone, Copy, Debug)]
pub enum Command {
    CommandRecord,
    CommandExit,
    CommandFlush(u64),
}

/// The discriminating number of a command; flush tokens do not take part in
/// command equality.
pub open spec fn command_kind(c: Command) -> int {
    match c {
        Command::CommandRecord => 1,
        Command::CommandExit => 2,
        Command::CommandFlush(_) => 3,
    }
}

impl Command {
    pub fn to_i32(&self) -> (r: i32)
        ensures
            r as int == command_kind(*self),
    {
        match self {
            Command::CommandRecord => 1,
            Command::CommandExit => 2,
            Command::CommandFlush(_) => 3,
        }
    }
}

impl PartialEq for Command {
    fn eq(&self, other: &Self) -> (r: bool) {
        self.to_i32() == other.to_i32()
    }
}

impl vstd::std_specs::cmp::PartialEqSpecImpl for Command {
    open spec fn obeys_eq_spec() -> bool {
        true
    }

    open spec fn eq_spec(&self, other: &Self) -> bool {
        command_kind(*self) == command_kind(*other)
    }
}

/// One log event. `now` is microseconds since the Unix epoch, captured at the
/// producer; `formated` starts empty and is set once by the formatter stage
/// unless the producer supplied it already.
#[derive(Clone, Debug)]
pub struct FastLogRecord {
    pub command: Command,
    pub level: Level,
    pub target: String,
    pub args: String,
    pub mod_path: String,
    pub file: String,
    pub line: Option<u32>,
    pub now: u64,
    pub formated: String,
}

/// The mathematical content of a record: the same fields with every string
/// replaced by its character sequence.
#[verifier::ext_equal]
pub ghost struct RecordView {
    pub command: Command,
    pub level: Level,
    pub target: Seq<char>,
    pub args: Seq<char>,
    pub mod_path: Seq<char>,
    pub file: Seq<char>,
    pub line: Option<u32>,
    pub now: u64,
    pub formated: Seq<char>,
}

impl View for FastLogRecord {
    type V = RecordView;

    open spec fn view(&self) -> RecordView {
        RecordView {
            command: self.command,
            level: self.level,
            target: self.target@,
            args: self.args@,
            mod_path: self.mod_path@,
            file: self.file@,
            line: self.line,
            now: self.now,
            formated: self.formated@,
        }
    }
}

// ---------------------------------------------------------------------------
// The formatter.

/// Renders records into their final textual line. `duration_zone` is a time
/// zone offset in microseconds added to each timestamp before rendering;
/// `display_line_level` bounds the levels whose lines carry file and line.
pub struct FastLogFormat {
    pub duration_zone: u64,
    pub display_line_level: LevelFilter,
}

/// The timestamp a record is rendered with: its capture instant shifted by
/// the zone offset, saturating at the largest representable instant.
pub open spec fn shifted_now(r: RecordView, zone: u64) -> u64 {
    if r.now + zone <= u64::MAX {
        (r.now + zone) as u64
    } else {
        u64::MAX
    }
}

/// Whether a line for level `l` carries the file and line suffix.
pub open spec fn shows_line(fmt: FastLogFormat, l: Level) -> bool {
    filter_rank(spec_to_level_filter(l)) <= filter_rank(fmt.display_line_level)
}

/// The full rendered line of an emit record: padded timestamp, level name,
/// module path, message, optional file/line suffix, newline.
pub open spec fn spec_record_line(fmt: FastLogFormat, r: RecordView) -> Seq<char> {
    pad_right(date_display(spec_date(shifted_now(r, fmt.duration_zone))), 29) + seq![' ']
        + level_name(r.level) + seq![' '] + r.mod_path + seq![' ', '-', ' '] + r.args + (
    if shows_line(fmt, r.level) {
        seq![' ', ' '] + r.file + seq![':'] + dec_seq(
            match r.line {
                Some(l) => l as int,
                None => 0,
            },
            1,
        )
    } else {
        Seq::<char>::empty()
    }) + seq!['\n']
}

/// What the formatter produces for a record: the rendered line for an emit
/// record, nothing for a control record.
pub open spec fn spec_format_output(fmt: FastLogFormat, r: RecordView) -> Seq<char> {
    match r.command {
        Command::CommandRecord => spec_record_line(fmt, r),
        _ => Seq::<char>::empty(),
    }
}

impl FastLogFormat {
    pub fn new() -> (r: FastLogFormat)
        ensures
            r.display_line_level == LevelFilter::Warn,
    {
        FastLogFormat {
            duration_zone: Self::local_duration(),
            display_line_level: LevelFilter::Warn,
        }
    }

    /// Relies on chrono's `Local::now` and `Utc::now`: the local clock reading
    /// minus the UTC reading, in microseconds, or zero where that difference
    /// is negative. The result depends on the host's time zone; nothing more
    /// is assumed of it.
    #[verifier::external_body]
    pub fn local_duration() -> u64 {
        let utc = chrono::Utc::now().naive_utc();
        let tz = chrono::Local::now().naive_local();
        let d = tz.signed_duration_since(utc).to_std().unwrap_or_default();
        u64::try_from(d.as_micros()).unwrap_or(u64::MAX)
    }

    /// Levels at or below this threshold have file and line rendered.
    pub fn set_display_line_level(self, level: LevelFilter) -> (r: FastLogFormat)
        ensures
            r.display_line_level == level,
            r.duration_zone == self.duration_zone,
    {
        FastLogFormat { display_line_level: level, ..self }
    }

    /// Time zone offset, microseconds.
    pub fn set_duration(self, duration: u64) -> (r: FastLogFormat)
        ensures
            r.duration_zone == duration,
            r.display_line_level == self.display_line_level,
    {
        FastLogFormat { duration_zone: duration, ..self }
    }

    /// Render `arg` into its final line, store it in `arg.formated`, and
    /// return it. Control records are left untouched and render as nothing.
    pub fn do_format(&self, arg: &mut FastLogRecord) -> (r: String)
        ensures
            r@ == spec_format_output(*self, old(arg)@),
            final(arg)@ == match old(arg)@.command {
                Command::CommandRecord => RecordView {
                    formated: spec_record_line(*self, old(arg)@),
                    ..old(arg)@
                },
                _ => old(arg)@,
            },
    {
        match arg.command {
            Command::CommandRecord => {
                let shifted = arg.now.saturating_add(self.duration_zone);
                let date = LogDate::from_micros(shifted);
                let mut s = date.display();
                crate::date::pad_to_width(&mut s, 29);
                s.append(" ");
                s.append(arg.level.name());
                s.append(" ");
                s.append(arg.mod_path.as_str());
                s.append(" - ");
                s.append(arg.args.as_str());
                if arg.level.to_level_filter().le(&self.display_line_level) {
                    s.append("  ");
                    s.append(arg.file.as_str());
                    s.append(":");
                    let line: u32 = match arg.line {
                        Some(l) => l,
                        None => 0,
                    };
                    crate::date::push_dec(&mut s, line as u64, 1);
                }
                s.append("\n");
                proof {
                    reveal_strlit(" ");
                    reveal_strlit(" - ");
                    reveal_strlit("  ");
                    reveal_strlit(":");
                    reveal_strlit("\n");
                    assert(" "@ =~= seq![' ']);
                    assert(" - "@ =~= seq![' ', '-', ' ']);
                    assert("  "@ =~= seq![' ', ' ']);
                    assert(":"@ =~= seq![':']);
                    assert("\n"@ =~= seq!['\n']);
                    assert(s@ =~= spec_record_line(*self, old(arg)@));
                }
                let out = s.clone();
                arg.formated = s;
                proof {
                    assert(arg@ =~= RecordView {
                        formated: spec_record_line(*self, old(arg)@),
                        ..old(arg)@
                    });
                }
                out
            },
            Command::CommandExit => String::new(),
            Command::CommandFlush(_) => String::new(),
        }
    }
}

} // verus!
