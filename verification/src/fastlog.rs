use vstd::prelude::*;
use crate::appender::{
    Command, FastLogFormat, FastLogRecord, Level, LevelFilter, RecordView, filter_rank,
    level_rank, spec_record_line,
};
use crate::error::LogError;
use vstd::string::StringExecFns;

verus! {

// ---------------------------------------------------------------------------
// Filters.

/// A producer-side predicate; the first filter that rejects a record aborts
/// its emission before it reaches the ingress queue. Filters are closed
/// variants, so they are side-effect free by construction.
#[derive(Clone, Copy, Debug)]
pub enum LogFilter {
    /// Admit everything.
    All,
    /// Admit only records at least as severe as the given level.
    MinLevel(Level),
}

pub open spec fn spec_do_log(f: LogFilter, l: Level) -> bool {
    match f {
        LogFilter::All => true,
        LogFilter::MinLevel(min) => level_rank(l) <= level_rank(min),
    }
}

impl LogFilter {
    pub fn do_log(&self, level: Level) -> (r: bool)
        ensures
            r == spec_do_log(*self, level),
    {
        match self {
            LogFilter::All => true,
            LogFilter::MinLevel(min) => level.to_level_filter().le(&min.to_level_filter()),
        }
    }
}

// ---------------------------------------------------------------------------
// Configuration.

/// Assembled once before the engine starts and immutable afterwards.
/// `chan_len` bounds the ingress queue (in records) and each sink queue (in
/// batches); zero means unbounded. `appends` is the number of configured
/// sinks; the engine tracks one queue and one delivered sequence per sink,
/// and the process around it drives each delivered batch into the real
/// appender.
pub struct Config {
    pub level: LevelFilter,
    pub chan_len: usize,
    pub format: FastLogFormat,
    pub filters: Vec<LogFilter>,
    pub appends: usize,
}

// ---------------------------------------------------------------------------
// The engine state.

/// One sink's half of the pipeline: the queue of batches not yet handed to
/// the appender, the batches already handed over (its observation history),
/// and whether its worker is still running. Batches are stored once in
/// `Logger::batches` and shared by index.
pub struct SinkState {
    pub queue: Vec<usize>,
    pub delivered: Vec<usize>,
    pub alive: bool,
}

/// The whole engine: configuration, ingress queue, the shared batch store,
/// one `SinkState` per sink, and the formatter worker's liveness. `entered`
/// is the ghost history of every record accepted into ingress, in order.
pub struct Logger {
    pub cfg: Config,
    pub ingress: Vec<FastLogRecord>,
    pub batches: Vec<Vec<FastLogRecord>>,
    pub sinks: Vec<SinkState>,
    pub formatter_alive: bool,
    pub next_token: u64,
    pub entered: Ghost<Seq<RecordView>>,
}

// ---------------------------------------------------------------------------
// Spec-level views of the state.

pub open spec fn seq_views(s: Seq<FastLogRecord>) -> Seq<RecordView> {
    s.map_values(|r: FastLogRecord| r@)
}

/// What the formatter stage does to one record: a not-yet-formatted emit
/// record gets its rendered line; everything else passes unchanged.
pub open spec fn spec_format_one(fmt: FastLogFormat, r: RecordView) -> RecordView {
    if r.formated.len() == 0 {
        match r.command {
            Command::CommandRecord => RecordView { formated: spec_record_line(fmt, r), ..r },
            _ => r,
        }
    } else {
        r
    }
}

pub open spec fn fmt_map(fmt: FastLogFormat, s: Seq<RecordView>) -> Seq<RecordView> {
    s.map_values(|r: RecordView| spec_format_one(fmt, r))
}

/// Whether some record in the sequence carries the exit command.
pub open spec fn has_exit(s: Seq<RecordView>) -> bool {
    exists|j: int| 0 <= j < s.len() && s[j].command is CommandExit
}

/// The flush tokens carried by the sequence, in order.
pub open spec fn flush_tokens_of(s: Seq<RecordView>) -> Seq<u64>
    decreases s.len(),
{
    if s.len() == 0 {
        Seq::empty()
    } else {
        (match s[0].command {
            Command::CommandFlush(t) => seq![t],
            _ => Seq::<u64>::empty(),
        }) + flush_tokens_of(s.drop_first())
    }
}

impl Logger {
    /// The stored batches as record-view sequences.
    pub open spec fn batch_views(self) -> Seq<Seq<RecordView>> {
        self.batches@.map_values(|b: Vec<FastLogRecord>| seq_views(b@))
    }

    /// The records denoted by a sequence of batch indices.
    pub open spec fn idx_records(self, idxs: Seq<usize>) -> Seq<RecordView> {
        idxs.map_values(|j: usize| self.batch_views()[j as int]).flatten()
    }

    /// Everything sink `i` has been handed so far, in order.
    pub open spec fn obs(self, i: int) -> Seq<RecordView> {
        self.idx_records(self.sinks@[i].delivered@)
    }

    /// Everything still waiting in sink `i`'s queue, in order.
    pub open spec fn queued(self, i: int) -> Seq<RecordView> {
        self.idx_records(self.sinks@[i].queue@)
    }

    /// The prefix of the history that the formatter has already drained.
    pub open spec fn processed(self) -> Seq<RecordView> {
        self.entered@.take(self.entered@.len() - self.ingress@.len())
    }

    pub open spec fn wf_indices(self) -> bool {
        forall|i: int|
            #![trigger self.sinks@[i]]
            0 <= i < self.sinks@.len() ==> {
                &&& forall|k: int|
                    0 <= k < self.sinks@[i].queue@.len() ==> (#[trigger] self.sinks@[i].queue@[k] as int)
                        < self.batches@.len()
                &&& forall|k: int|
                    0 <= k < self.sinks@[i].delivered@.len()
                        ==> (#[trigger] self.sinks@[i].delivered@[k] as int) < self.batches@.len()
            }
    }

    /// Capacity: with a bound configured, ingress holds at most `chan_len`
    /// records and each sink queue at most `chan_len` batches.
    pub open spec fn bounded(self) -> bool {
        self.cfg.chan_len > 0 ==> {
            &&& self.ingress@.len() <= self.cfg.chan_len
            &&& forall|i: int|
                0 <= i < self.sinks@.len() ==> self.sinks@[i].queue@.len() <= self.cfg.chan_len
        }
    }

    /// The engine's invariant. The history splits into a processed prefix
    /// and the current ingress contents, and every sink's observation
    /// followed by its queue is exactly the formatted processed prefix: no
    /// sink ever sees records out of order, duplicated, or unformatted.
    pub open spec fn inv(self) -> bool {
        &&& self.sinks@.len() == self.cfg.appends
        &&& self.cfg.appends >= 1
        &&& self.ingress@.len() <= self.entered@.len()
        &&& self.entered@.skip(self.entered@.len() - self.ingress@.len()) == seq_views(
            self.ingress@,
        )
        &&& self.wf_indices()
        &&& forall|i: int|
            0 <= i < self.sinks@.len() ==> self.obs(i) + self.queued(i) == fmt_map(
                self.cfg.format,
                self.processed(),
            )
        &&& self.bounded()
    }
}

// ---------------------------------------------------------------------------
// Record views constructed by the producer operations.

pub open spec fn emit_view(
    level: Level,
    target: Seq<char>,
    args: Seq<char>,
    mod_path: Seq<char>,
    file: Seq<char>,
    line: Option<u32>,
    now: u64,
) -> RecordView {
    RecordView {
        command: Command::CommandRecord,
        level,
        target,
        args,
        mod_path,
        file,
        line,
        now,
        formated: Seq::empty(),
    }
}

pub open spec fn print_view(log: Seq<char>, now: u64) -> RecordView {
    RecordView {
        command: Command::CommandRecord,
        level: Level::Info,
        target: Seq::empty(),
        args: Seq::empty(),
        mod_path: Seq::empty(),
        file: Seq::empty(),
        line: None,
        now,
        formated: log,
    }
}

pub open spec fn control_view(c: Command, now: u64) -> RecordView {
    RecordView {
        command: c,
        level: Level::Info,
        target: Seq::empty(),
        args: Seq::empty(),
        mod_path: Seq::empty(),
        file: Seq::empty(),
        line: None,
        now,
        formated: Seq::empty(),
    }
}

/// Whether a record at this level passes the threshold and every filter.
pub open spec fn passes(cfg: Config, level: Level) -> bool {
    &&& level_rank(level) <= filter_rank(cfg.level)
    &&& forall|k: int| 0 <= k < cfg.filters@.len() ==> spec_do_log(cfg.filters@[k], level)
}

/// Whether the ingress queue has room for one more record.
pub open spec fn has_room(l: Logger) -> bool {
    l.cfg.chan_len == 0 || l.ingress@.len() < l.cfg.chan_len
}

/// What became of an emission attempt.
#[derive(Clone, Copy, Debug, PartialEq, Eq, Structural)]
pub enum EmitOutcome {
    /// The record entered the ingress queue.
    Sent,
    /// A filter or the level threshold rejected it.
    Filtered,
    /// The ingress queue is full; the producer must wait and retry.
    Full,
}

// ---------------------------------------------------------------------------
// Construction.

/// Build an engine from a configuration. Fails exactly when the sink list is
/// empty.
pub fn init(config: Config) -> (r: Result<Logger, LogError>)
    ensures
        config.appends == 0 <==> r is Err,
        r is Err ==> (r matches Err(LogError::E(m)) && m@
            == "[fastlog] appends can not be empty!"@),
        r matches Ok(l) ==> {
            &&& l.cfg == config
            &&& l.ingress@.len() == 0
            &&& l.batches@.len() == 0
            &&& l.sinks@.len() == config.appends
            &&& forall|i: int|
                0 <= i < l.sinks@.len() ==> (l.sinks@[i].queue@.len() == 0
                    && l.sinks@[i].delivered@.len() == 0 && l.sinks@[i].alive)
            &&& l.formatter_alive
            &&& l.next_token == 0
            &&& l.entered@.len() == 0
            &&& l.inv()
        },
{
    if config.appends == 0 {
        return Err(LogError::E(String::from_str("[fastlog] appends can not be empty!")));
    }
    let n = config.appends;
    let mut sinks: Vec<SinkState> = Vec::new();
    let mut i: usize = 0;
    while i < n
        invariant
            i <= n,
            sinks@.len() == i,
            forall|k: int|
                0 <= k < i as int ==> (sinks@[k].queue@.len() == 0 && sinks@[k].delivered@.len()
                    == 0 && sinks@[k].alive),
        decreases n - i,
    {
        sinks.push(SinkState { queue: Vec::new(), delivered: Vec::new(), alive: true });
        i = i + 1;
    }
    let l = Logger {
        cfg: config,
        ingress: Vec::new(),
        batches: Vec::new(),
        sinks,
        formatter_alive: true,
        next_token: 0,
        entered: Ghost(Seq::empty()),
    };
    proof {
        assert(l.processed() =~= Seq::<RecordView>::empty());
        assert(seq_views(l.ingress@) =~= Seq::<RecordView>::empty());
        assert(l.entered@.skip(0) =~= Seq::<RecordView>::empty());
        assert(fmt_map(l.cfg.format, l.processed()) =~= Seq::<RecordView>::empty());
        assert forall|i2: int| 0 <= i2 < l.sinks@.len() implies l.obs(i2) + l.queued(i2) == fmt_map(
            l.cfg.format,
            l.processed(),
        ) by {
            assert(l.sinks@[i2].delivered@.map_values(|j: usize| l.batch_views()[j as int]) =~= Seq::<
                Seq<RecordView>,
            >::empty());
            assert(l.sinks@[i2].queue@.map_values(|j: usize| l.batch_views()[j as int]) =~= Seq::<
                Seq<RecordView>,
            >::empty());
            assert(l.obs(i2) =~= Seq::<RecordView>::empty());
            assert(l.queued(i2) =~= Seq::<RecordView>::empty());
            assert(l.obs(i2) + l.queued(i2) =~= fmt_map(l.cfg.format, l.processed()));
        }
    }
    Ok(l)
}

// ---------------------------------------------------------------------------
// Producer operations.

/// The invariant does not depend on the token counter or the formatter's
/// liveness flag.
proof fn lemma_inv_frame(a: Logger, b: Logger)
    requires
        a.inv(),
        b.cfg == a.cfg,
        b.ingress == a.ingress,
        b.batches == a.batches,
        b.sinks == a.sinks,
        b.entered == a.entered,
    ensures
        b.inv(),
{
    assert(b.batch_views() == a.batch_views());
    assert forall|i: int| 0 <= i < b.sinks@.len() implies b.obs(i) + b.queued(i) == fmt_map(
        b.cfg.format,
        b.processed(),
    ) by {
        assert(b.sinks@[i].delivered@.map_values(|j: usize| b.batch_views()[j as int])
            =~= a.sinks@[i].delivered@.map_values(|j: usize| a.batch_views()[j as int]));
        assert(b.sinks@[i].queue@.map_values(|j: usize| b.batch_views()[j as int])
            =~= a.sinks@[i].queue@.map_values(|j: usize| a.batch_views()[j as int]));
        assert(b.obs(i) == a.obs(i));
        assert(b.queued(i) == a.queued(i));
        assert(b.processed() == a.processed());
    }
}

impl Logger {
    /// Accept one record into the history and the ingress queue.
    fn push_ingress(&mut self, rec: FastLogRecord)
        requires
            old(self).inv(),
            has_room(*old(self)),
        ensures
            final(self).inv(),
            final(self).ingress@ == old(self).ingress@.push(rec),
            final(self).entered@ == old(self).entered@.push(rec@),
            final(self).cfg == old(self).cfg,
            final(self).batches == old(self).batches,
            final(self).sinks == old(self).sinks,
            final(self).formatter_alive == old(self).formatter_alive,
            final(self).next_token == old(self).next_token,
    {
        proof {
            let l = *self;
            assert(l.entered@.push(rec@).take(
                l.entered@.push(rec@).len() - l.ingress@.push(rec).len(),
            ) =~= l.processed());
        }
        self.ingress.push(rec);
        let ghost e = self.entered@;
        self.entered = Ghost(self.entered@.push(rec@));
        proof {
            let l = *self;
            assert(l.entered@.skip(l.entered@.len() - l.ingress@.len()) =~= seq_views(l.ingress@))
                by {
                let o = old(self);
                assert(seq_views(l.ingress@) =~= seq_views(o.ingress@).push(rec@));
                assert(l.entered@.skip(l.entered@.len() - l.ingress@.len()) =~= o.entered@.skip(
                    o.entered@.len() - o.ingress@.len(),
                ).push(rec@));
            }
            assert(self.processed() =~= old(self).processed());
            assert forall|i: int| 0 <= i < self.sinks@.len() implies self.obs(i) + self.queued(i)
                == fmt_map(self.cfg.format, self.processed()) by {
                assert(self.obs(i) == old(self).obs(i));
                assert(self.queued(i) == old(self).queued(i));
            }
        }
    }

    /// Emit one log event: gate it on the level threshold and the filter
    /// chain, then enqueue it unformatted. The producer blocks (retries) on
    /// `Full`; a rejected record leaves the engine untouched.
    pub fn log(
        &mut self,
        level: Level,
        target: String,
        args: String,
        mod_path: String,
        file: String,
        line: Option<u32>,
        now: u64,
    ) -> (r: EmitOutcome)
        requires
            old(self).inv(),
        ensures
            final(self).inv(),
            r == EmitOutcome::Filtered <==> !passes(old(self).cfg, level),
            r == EmitOutcome::Full <==> (passes(old(self).cfg, level) && !has_room(*old(self))),
            r == EmitOutcome::Sent <==> (passes(old(self).cfg, level) && has_room(*old(self))),
            r == EmitOutcome::Sent ==> {
                &&& final(self).ingress@.len() == old(self).ingress@.len() + 1
                &&& final(self).ingress@.last()@ == emit_view(
                    level,
                    target@,
                    args@,
                    mod_path@,
                    file@,
                    line,
                    now,
                )
                &&& final(self).ingress@.take(old(self).ingress@.len() as int) == old(
                    self,
                ).ingress@
                &&& final(self).entered@ == old(self).entered@.push(
                    emit_view(level, target@, args@, mod_path@, file@, line, now),
                )
            },
            r != EmitOutcome::Sent ==> *final(self) == *old(self),
            final(self).cfg == old(self).cfg,
            final(self).sinks == old(self).sinks,
            final(self).batches == old(self).batches,
            final(self).formatter_alive == old(self).formatter_alive,
            final(self).next_token == old(self).next_token,
    {
        if !level.to_level_filter().le(&self.cfg.level) {
            return EmitOutcome::Filtered;
        }
        let mut k: usize = 0;
        let nf = self.cfg.filters.len();
        while k < nf
            invariant
                nf == self.cfg.filters@.len(),
                k <= nf,
                forall|j: int| 0 <= j < k as int ==> spec_do_log(self.cfg.filters@[j], level),
                *self == *old(self),
                old(self).inv(),
            decreases nf - k,
        {
            if !self.cfg.filters[k].do_log(level) {
                return EmitOutcome::Filtered;
            }
            k = k + 1;
        }
        if self.cfg.chan_len > 0 && self.ingress.len() >= self.cfg.chan_len {
            return EmitOutcome::Full;
        }
        let rec = FastLogRecord {
            command: Command::CommandRecord,
            level,
            target,
            args,
            mod_path,
            file,
            line,
            now,
            formated: String::new(),
        };
        proof {
            assert(rec@ =~= emit_view(
                level,
                rec.target@,
                rec.args@,
                rec.mod_path@,
                rec.file@,
                line,
                now,
            ));
        }
        self.push_ingress(rec);
        EmitOutcome::Sent
    }

    /// Deliver a pre-formatted line: it bypasses the filters and the
    /// formatter leaves it untouched.
    pub fn print(&mut self, log: String, now: u64) -> (r: Result<(), LogError>)
        requires
            old(self).inv(),
        ensures
            final(self).inv(),
            r is Ok <==> has_room(*old(self)),
            r is Ok ==> {
                &&& final(self).ingress@.len() == old(self).ingress@.len() + 1
                &&& final(self).ingress@.last()@ == print_view(log@, now)
                &&& final(self).ingress@.take(old(self).ingress@.len() as int) == old(
                    self,
                ).ingress@
                &&& final(self).entered@ == old(self).entered@.push(print_view(log@, now))
            },
            r is Err ==> (*final(self) == *old(self) && (r matches Err(LogError::E(m)) && m@
                == "[fastlog] ingress is full!"@)),
            final(self).cfg == old(self).cfg,
            final(self).sinks == old(self).sinks,
            final(self).batches == old(self).batches,
            final(self).formatter_alive == old(self).formatter_alive,
            final(self).next_token == old(self).next_token,
    {
        if self.cfg.chan_len > 0 && self.ingress.len() >= self.cfg.chan_len {
            return Err(LogError::E(String::from_str("[fastlog] ingress is full!")));
        }
        let rec = FastLogRecord {
            command: Command::CommandRecord,
            level: Level::Info,
            target: String::new(),
            args: String::new(),
            mod_path: String::new(),
            file: String::new(),
            line: None,
            now,
            formated: log,
        };
        proof {
            assert(rec@ =~= print_view(rec.formated@, now));
        }
        self.push_ingress(rec);
        Ok(())
    }

}

// ---------------------------------------------------------------------------
// The producer-facing free operations.

/// Request a flush barrier: enqueue a flush record carrying a fresh
/// token and return the token. The caller waits until every sink worker
/// has released it.
pub fn flush(l: &mut Logger) -> (r: Result<u64, LogError>)
    requires
        old(l).inv(),
    ensures
        final(l).inv(),
        r is Ok <==> has_room(*old(l)),
        r matches Ok(t) ==> {
            &&& t == old(l).next_token
            &&& final(l).ingress@.len() == old(l).ingress@.len() + 1
            &&& final(l).ingress@.last()@ == control_view(Command::CommandFlush(t), 0)
            &&& final(l).ingress@.take(old(l).ingress@.len() as int) == old(
                l,
            ).ingress@
            &&& final(l).entered@ == old(l).entered@.push(
                control_view(Command::CommandFlush(t), 0),
            )
        },
        r is Err ==> (*final(l) == *old(l) && (r matches Err(LogError::E(m)) && m@
            == "[fastlog] flush fail!"@)),
        r is Ok ==> final(l).next_token == (if old(l).next_token == u64::MAX {
            0u64
        } else {
            (old(l).next_token + 1) as u64
        }),
        final(l).cfg == old(l).cfg,
        final(l).sinks == old(l).sinks,
        final(l).batches == old(l).batches,
        final(l).formatter_alive == old(l).formatter_alive,
{
    if l.cfg.chan_len > 0 && l.ingress.len() >= l.cfg.chan_len {
        return Err(LogError::E(String::from_str("[fastlog] flush fail!")));
    }
    let t = l.next_token;
    l.next_token = if t == u64::MAX {
        0
    } else {
        t + 1
    };
    proof {
        lemma_inv_frame(*old(l), *l);
    }
    let rec = FastLogRecord {
        command: Command::CommandFlush(t),
        level: Level::Info,
        target: String::new(),
        args: String::new(),
        mod_path: String::new(),
        file: String::new(),
        line: None,
        now: 0,
        formated: String::new(),
    };
    proof {
        assert(rec@ =~= control_view(Command::CommandFlush(t), 0));
    }
    l.push_ingress(rec);
    Ok(t)
}

/// Request shutdown: enqueue the exit record. It propagates stage by
/// stage; each worker drains what precedes it and then stops.
pub fn exit(l: &mut Logger) -> (r: Result<(), LogError>)
    requires
        old(l).inv(),
    ensures
        final(l).inv(),
        r is Ok <==> has_room(*old(l)),
        r is Ok ==> {
            &&& final(l).ingress@.len() == old(l).ingress@.len() + 1
            &&& final(l).ingress@.last()@ == control_view(Command::CommandExit, 0)
            &&& final(l).ingress@.take(old(l).ingress@.len() as int) == old(
                l,
            ).ingress@
            &&& final(l).entered@ == old(l).entered@.push(
                control_view(Command::CommandExit, 0),
            )
        },
        r is Err ==> (*final(l) == *old(l) && (r matches Err(LogError::E(m)) && m@
            == "[fastlog] exit fail!"@)),
        final(l).cfg == old(l).cfg,
        final(l).sinks == old(l).sinks,
        final(l).batches == old(l).batches,
        final(l).formatter_alive == old(l).formatter_alive,
        final(l).next_token == old(l).next_token,
{
    if l.cfg.chan_len > 0 && l.ingress.len() >= l.cfg.chan_len {
        return Err(LogError::E(String::from_str("[fastlog] exit fail!")));
    }
    let rec = FastLogRecord {
        command: Command::CommandExit,
        level: Level::Info,
        target: String::new(),
        args: String::new(),
        mod_path: String::new(),
        file: String::new(),
        line: None,
        now: 0,
        formated: String::new(),
    };
    proof {
        assert(rec@ =~= control_view(Command::CommandExit, 0));
    }
    l.push_ingress(rec);
    Ok(())
}

/// Deliver a pre-formatted line through the engine; see `Logger::print`.
pub fn print(l: &mut Logger, log: String, now: u64) -> (r: Result<(), LogError>)
    requires
        old(l).inv(),
    ensures
        final(l).inv(),
        r is Ok <==> has_room(*old(l)),
        r is Ok ==> {
            &&& final(l).ingress@.len() == old(l).ingress@.len() + 1
            &&& final(l).ingress@.last()@ == print_view(log@, now)
            &&& final(l).entered@ == old(l).entered@.push(print_view(log@, now))
        },
        r is Err ==> (*final(l) == *old(l) && (r matches Err(LogError::E(m)) && m@
            == "[fastlog] ingress is full!"@)),
        final(l).cfg == old(l).cfg,
        final(l).sinks == old(l).sinks,
        final(l).batches == old(l).batches,
        final(l).formatter_alive == old(l).formatter_alive,
        final(l).next_token == old(l).next_token,
{
    l.print(log, now)
}

// ---------------------------------------------------------------------------
// Worker steps.

proof fn lemma_has_exit_push(s: Seq<RecordView>, r: RecordView)
    ensures
        has_exit(s.push(r)) == (has_exit(s) || r.command is CommandExit),
{
    if has_exit(s) {
        let j = choose|j: int| 0 <= j < s.len() && s[j].command is CommandExit;
        assert(s.push(r)[j].command is CommandExit);
    }
    if r.command is CommandExit {
        assert(s.push(r)[s.len() as int].command is CommandExit);
    }
    if has_exit(s.push(r)) && !(r.command is CommandExit) {
        let j = choose|j: int| 0 <= j < s.push(r).len() && s.push(r)[j].command is CommandExit;
        assert(0 <= j < s.len() && s[j].command is CommandExit);
    }
}

proof fn lemma_has_exit_concat(a: Seq<RecordView>, b: Seq<RecordView>)
    ensures
        has_exit(a + b) == (has_exit(a) || has_exit(b)),
{
    if has_exit(a) {
        let j = choose|j: int| 0 <= j < a.len() && a[j].command is CommandExit;
        assert((a + b)[j].command is CommandExit);
    }
    if has_exit(b) {
        let j = choose|j: int| 0 <= j < b.len() && b[j].command is CommandExit;
        assert((a + b)[a.len() + j].command is CommandExit);
    }
    if has_exit(a + b) && !has_exit(a) {
        let j = choose|j: int| 0 <= j < (a + b).len() && (a + b)[j].command is CommandExit;
        if j < a.len() {
            assert(a[j].command is CommandExit);
        } else {
            assert(b[j - a.len()].command is CommandExit);
        }
    }
}

proof fn lemma_flush_tokens_concat(a: Seq<RecordView>, b: Seq<RecordView>)
    ensures
        flush_tokens_of(a + b) == flush_tokens_of(a) + flush_tokens_of(b),
    decreases a.len(),
{
    if a.len() == 0 {
        assert(a + b =~= b);
        assert(flush_tokens_of(a) =~= Seq::<u64>::empty());
        assert(flush_tokens_of(a) + flush_tokens_of(b) =~= flush_tokens_of(b));
    } else {
        assert((a + b).len() > 0);
        assert((a + b)[0] == a[0]);
        assert((a + b).drop_first() =~= a.drop_first() + b);
        lemma_flush_tokens_concat(a.drop_first(), b);
        assert(flush_tokens_of(a + b) =~= flush_tokens_of(a) + flush_tokens_of(b));
    }
}

proof fn lemma_flush_tokens_push(s: Seq<RecordView>, r: RecordView)
    ensures
        flush_tokens_of(s.push(r)) == flush_tokens_of(s) + (match r.command {
            Command::CommandFlush(t) => seq![t],
            _ => Seq::<u64>::empty(),
        }),
{
    assert(s.push(r) =~= s + seq![r]);
    lemma_flush_tokens_concat(s, seq![r]);
    let single = seq![r];
    assert(single[0] == r);
    assert(single.drop_first() =~= Seq::<RecordView>::empty());
    assert(flush_tokens_of(single.drop_first()) =~= Seq::<u64>::empty());
    match r.command {
        Command::CommandFlush(t) => {
            assert(flush_tokens_of(single) =~= seq![t]);
        },
        _ => {
            assert(flush_tokens_of(single) =~= Seq::<u64>::empty());
            assert(flush_tokens_of(s) + flush_tokens_of(single) =~= flush_tokens_of(s));
        },
    }
}

/// Record sequences denoted by batch indices do not change when the batch
/// store only grows and the indices stay in the old range.
proof fn lemma_idx_records_stable(a: Logger, b: Logger, idxs: Seq<usize>)
    requires
        forall|k: int| 0 <= k < idxs.len() ==> (#[trigger] idxs[k] as int) < a.batches@.len(),
        a.batches@.len() <= b.batches@.len(),
        forall|k: int| 0 <= k < a.batches@.len() ==> a.batches@[k] == b.batches@[k],
    ensures
        b.idx_records(idxs) == a.idx_records(idxs),
{
    assert(idxs.map_values(|j: usize| b.batch_views()[j as int]) =~= idxs.map_values(
        |j: usize| a.batch_views()[j as int],
    ));
}

/// The formatter's per-batch work: render every record that still lacks its
/// line, and report whether the batch carries the exit command. The
/// formatter worker process runs exactly this on every batch it drains.
pub fn format_batch(fmt: &FastLogFormat, batch: Vec<FastLogRecord>) -> (r: (
    Vec<FastLogRecord>,
    bool,
))
    ensures
        seq_views(r.0@) == fmt_map(*fmt, seq_views(batch@)),
        r.1 == has_exit(seq_views(batch@)),
{
    let ghost orig = batch@;
    let mut rest = batch;
    let mut out: Vec<FastLogRecord> = Vec::new();
    let mut exit_seen = false;
    while rest.len() > 0
        invariant
            out@.len() + rest@.len() == orig.len(),
            rest@ == orig.skip(out@.len() as int),
            seq_views(out@) == fmt_map(*fmt, seq_views(orig)).take(out@.len() as int),
            exit_seen == has_exit(seq_views(orig).take(out@.len() as int)),
        decreases rest@.len(),
    {
        let ghost k = out@.len() as int;
        let mut r = rest.remove(0);
        proof {
            assert(rest@ =~= orig.skip(k + 1));
            assert(r == orig[k]);
        }
        if r.formated.as_str().is_empty() {
            let _line = fmt.do_format(&mut r);
        }
        let is_exit = match r.command {
            Command::CommandExit => true,
            _ => false,
        };
        if is_exit {
            exit_seen = true;
        }
        out.push(r);
        proof {
            assert(r@ =~= spec_format_one(*fmt, orig[k]@));
            assert(seq_views(orig)[k] == orig[k]@);
            assert(seq_views(out@) =~= fmt_map(*fmt, seq_views(orig)).take(k + 1));
            lemma_has_exit_push(seq_views(orig).take(k), seq_views(orig)[k]);
            assert(seq_views(orig).take(k + 1) =~= seq_views(orig).take(k).push(
                seq_views(orig)[k],
            ));
        }
    }
    proof {
        assert(seq_views(out@) =~= fmt_map(*fmt, seq_views(orig)));
        assert(seq_views(orig).take(orig.len() as int) =~= seq_views(orig));
    }
    (out, exit_seen)
}

/// Collect the control content of one batch: the flush tokens it carries, in
/// order, and whether it holds the exit command. A sink worker process runs
/// this on every batch after handing it to its appender.
pub fn scan_batch(b: &Vec<FastLogRecord>, tokens: &mut Vec<u64>, exit_found: &mut bool)
    ensures
        final(tokens)@ == old(tokens)@ + flush_tokens_of(seq_views(b@)),
        *final(exit_found) == (*old(exit_found) || has_exit(seq_views(b@))),
{
    let n = b.len();
    let mut m: usize = 0;
    while m < n
        invariant
            n == b@.len(),
            m <= n,
            tokens@ == old(tokens)@ + flush_tokens_of(seq_views(b@).take(m as int)),
            *exit_found == (*old(exit_found) || has_exit(seq_views(b@).take(m as int))),
        decreases n - m,
    {
        let ghost k = m as int;
        match b[m].command {
            Command::CommandFlush(t) => {
                tokens.push(t);
            },
            Command::CommandExit => {
                *exit_found = true;
            },
            Command::CommandRecord => {},
        }
        m = m + 1;
        proof {
            let v = seq_views(b@);
            assert(v.take(k + 1) =~= v.take(k).push(v[k]));
            lemma_flush_tokens_push(v.take(k), v[k]);
            lemma_has_exit_push(v.take(k), v[k]);
            assert(v[k] == b@[k]@);
            assert(tokens@ =~= old(tokens)@ + flush_tokens_of(v.take(k + 1)));
        }
    }
    proof {
        assert(seq_views(b@).take(b@.len() as int) =~= seq_views(b@));
    }
}

impl Logger {
    /// One iteration of the formatter worker: drain the whole ingress queue
    /// as a batch, format every record that lacks its line, publish the batch
    /// to every sink queue, and stop if the batch carried the exit command.
    /// Room in every sink queue is the caller's concern: the real worker
    /// blocks until a full queue drains.
    pub fn formatter_step(&mut self) -> (exit_seen: bool)
        requires
            old(self).inv(),
            old(self).formatter_alive,
            old(self).cfg.chan_len > 0 ==> forall|i: int|
                0 <= i < old(self).sinks@.len() ==> (#[trigger] old(self).sinks@[i].queue@.len())
                    < old(self).cfg.chan_len,
        ensures
            final(self).inv(),
            final(self).ingress@.len() == 0,
            final(self).batches@.len() == old(self).batches@.len() + 1,
            seq_views(final(self).batches@.last()@) == fmt_map(
                old(self).cfg.format,
                seq_views(old(self).ingress@),
            ),
            final(self).sinks@.len() == old(self).sinks@.len(),
            forall|i: int|
                0 <= i < final(self).sinks@.len() ==> {
                    &&& (#[trigger] final(self).sinks@[i]).queue@ == old(
                        self,
                    ).sinks@[i].queue@.push(old(self).batches@.len() as usize)
                    &&& final(self).sinks@[i].delivered == old(self).sinks@[i].delivered
                    &&& final(self).sinks@[i].alive == old(self).sinks@[i].alive
                    &&& final(self).queued(i) == old(self).queued(i) + fmt_map(
                        old(self).cfg.format,
                        seq_views(old(self).ingress@),
                    )
                    &&& final(self).obs(i) == old(self).obs(i)
                },
            exit_seen == has_exit(seq_views(old(self).ingress@)),
            final(self).formatter_alive == !exit_seen,
            final(self).cfg == old(self).cfg,
            final(self).entered == old(self).entered,
            final(self).next_token == old(self).next_token,
    {
        let ghost l0 = *self;
        let mut batch: Vec<FastLogRecord> = Vec::new();
        core::mem::swap(&mut batch, &mut self.ingress);
        let (formatted, exit_seen) = format_batch(&self.cfg.format, batch);
        let ghost fmtd = formatted@;
        let idx = self.batches.len();
        self.batches.push(formatted);
        let ghost l1 = *self;
        let n = self.sinks.len();
        let mut i: usize = 0;
        while i < n
            invariant
                n == self.sinks@.len(),
                n == l1.sinks@.len(),
                i <= n,
                idx as int == l1.batches@.len() - 1,
                self.cfg == l1.cfg,
                self.ingress == l1.ingress,
                self.batches == l1.batches,
                self.formatter_alive == l1.formatter_alive,
                self.next_token == l1.next_token,
                self.entered == l1.entered,
                forall|j: int|
                    0 <= j < i as int ==> {
                        &&& (#[trigger] self.sinks@[j]).queue@ == l1.sinks@[j].queue@.push(idx)
                        &&& self.sinks@[j].delivered == l1.sinks@[j].delivered
                        &&& self.sinks@[j].alive == l1.sinks@[j].alive
                    },
                forall|j: int| i as int <= j < n ==> #[trigger] self.sinks@[j] == l1.sinks@[j],
            decreases n - i,
        {
            let mut s = self.sinks.remove(i);
            let ghost sv = self.sinks@;
            s.queue.push(idx);
            self.sinks.insert(i, s);
            proof {
                assert(forall|j: int|
                    0 <= j < i as int ==> #[trigger] self.sinks@[j] == sv.insert(
                        i as int,
                        s,
                    )[j]);
                assert(forall|j: int|
                    0 <= j < n ==> j != i as int ==> #[trigger] self.sinks@[j] == if j < i as int {
                        sv[j]
                    } else {
                        sv[j - 1]
                    });
            }
            i = i + 1;
        }
        if exit_seen {
            self.formatter_alive = false;
        }
        proof {
            let lf = *self;
            let fm = l0.cfg.format;
            let inviews = seq_views(l0.ingress@);
            // The published batch is the formatted drain of the old ingress.
            assert(lf.batches@.last()@ == fmtd);
            // Stability of everything already stored.
            assert(l0.batches@.len() <= lf.batches@.len());
            assert(forall|k: int|
                0 <= k < l0.batches@.len() ==> l0.batches@[k] == lf.batches@[k]);
            assert(lf.batch_views()[idx as int] == seq_views(fmtd));
            assert forall|i2: int| 0 <= i2 < lf.sinks@.len() implies lf.queued(i2) == l0.queued(i2)
                + fmt_map(fm, inviews) && lf.obs(i2) == l0.obs(i2) by {
                lemma_idx_records_stable(l0, lf, l0.sinks@[i2].delivered@);
                lemma_idx_records_stable(l0, lf, l0.sinks@[i2].queue@);
                assert(lf.sinks@[i2].queue@ == l0.sinks@[i2].queue@.push(idx));
                assert(lf.sinks@[i2].queue@.map_values(|j: usize| lf.batch_views()[j as int])
                    =~= l0.sinks@[i2].queue@.map_values(|j: usize| lf.batch_views()[j as int]).push(
                    seq_views(fmtd),
                ));
                Seq::lemma_flatten_push(
                    l0.sinks@[i2].queue@.map_values(|j: usize| lf.batch_views()[j as int]),
                    seq_views(fmtd),
                );
            }
            // The invariant: the processed prefix grew by the old ingress.
            assert(lf.processed() =~= lf.entered@);
            assert(l0.entered@ =~= l0.processed() + inviews);
            assert forall|i2: int| 0 <= i2 < lf.sinks@.len() implies lf.obs(i2) + lf.queued(i2)
                == fmt_map(lf.cfg.format, lf.processed()) by {
                assert(fmt_map(fm, l0.processed() + inviews) =~= fmt_map(fm, l0.processed())
                    + fmt_map(fm, inviews));
                assert(lf.obs(i2) + lf.queued(i2) =~= (l0.obs(i2) + l0.queued(i2)) + fmt_map(
                    fm,
                    inviews,
                ));
            }
            assert(lf.entered@.skip(lf.entered@.len() - lf.ingress@.len()) =~= seq_views(
                lf.ingress@,
            ));
        }
        exit_seen
    }

    /// One iteration of a sink worker: hand every queued batch to the sink in
    /// order (the delivered history is that hand-off), release the flush
    /// tokens found among them, and stop after draining if a batch carried
    /// the exit command. Returns the released tokens in order.
    pub fn sink_step(&mut self, i: usize) -> (tokens: Vec<u64>)
        requires
            old(self).inv(),
            (i as int) < old(self).sinks@.len(),
        ensures
            final(self).inv(),
            final(self).sinks@.len() == old(self).sinks@.len(),
            final(self).sinks@[i as int].queue@.len() == 0,
            final(self).sinks@[i as int].delivered@ == old(self).sinks@[i as int].delivered@ + old(
                self,
            ).sinks@[i as int].queue@,
            final(self).obs(i as int) == old(self).obs(i as int) + old(self).queued(i as int),
            final(self).sinks@[i as int].alive == (old(self).sinks@[i as int].alive && !has_exit(
                old(self).queued(i as int),
            )),
            tokens@ == flush_tokens_of(old(self).queued(i as int)),
            forall|j: int|
                0 <= j < final(self).sinks@.len() && j != i as int ==> final(self).sinks@[j] == old(
                    self,
                ).sinks@[j],
            final(self).cfg == old(self).cfg,
            final(self).ingress == old(self).ingress,
            final(self).batches == old(self).batches,
            final(self).entered == old(self).entered,
            final(self).formatter_alive == old(self).formatter_alive,
            final(self).next_token == old(self).next_token,
    {
        let ghost l0 = *self;
        let mut s = self.sinks.remove(i);
        let ghost q0 = s.queue@;
        let ghost d0 = s.delivered@;
        let mut tokens: Vec<u64> = Vec::new();
        let mut exit_found = false;
        let nq = s.queue.len();
        let mut k: usize = 0;
        while k < nq
            invariant
                nq == q0.len(),
                k <= nq,
                (i as int) < l0.sinks@.len(),
                s.queue@ == q0,
                forall|m: int| 0 <= m < q0.len() ==> (#[trigger] q0[m] as int) < self.batches@.len(),
                *self == (Logger { sinks: self.sinks, ..l0 }),
                self.sinks@ == l0.sinks@.remove(i as int),
                tokens@ == flush_tokens_of(l0.idx_records(q0.take(k as int))),
                exit_found == has_exit(l0.idx_records(q0.take(k as int))),
            decreases nq - k,
        {
            let ghost kk = k as int;
            let idx = s.queue[k];
            scan_batch(&self.batches[idx], &mut tokens, &mut exit_found);
            k = k + 1;
            proof {
                assert(self.batches@[q0[kk] as int] == l0.batches@[q0[kk] as int]);
                assert(l0.batch_views()[q0[kk] as int] == seq_views(l0.batches@[q0[kk] as int]@));
                assert(q0.take(kk + 1) =~= q0.take(kk).push(q0[kk]));
                assert(q0.take(kk + 1).map_values(|j: usize| l0.batch_views()[j as int]) =~= q0.take(
                    kk,
                ).map_values(|j: usize| l0.batch_views()[j as int]).push(
                    l0.batch_views()[q0[kk] as int],
                ));
                Seq::lemma_flatten_push(
                    q0.take(kk).map_values(|j: usize| l0.batch_views()[j as int]),
                    l0.batch_views()[q0[kk] as int],
                );
                lemma_flush_tokens_concat(
                    l0.idx_records(q0.take(kk)),
                    l0.batch_views()[q0[kk] as int],
                );
                lemma_has_exit_concat(
                    l0.idx_records(q0.take(kk)),
                    l0.batch_views()[q0[kk] as int],
                );
            }
        }
        proof {
            assert(q0.take(q0.len() as int) =~= q0);
        }
        s.delivered.append(&mut s.queue);
        if exit_found {
            s.alive = false;
        }
        self.sinks.insert(i, s);
        proof {
            let lf = *self;
            assert(lf.sinks@ =~= l0.sinks@.update(i as int, s));
            assert(lf.batch_views() == l0.batch_views());
            assert(lf.processed() == l0.processed());
            // Per-sink record sequences are unchanged in meaning: the batch
            // store did not change.
            assert forall|j: int| 0 <= j < lf.sinks@.len() && j != i as int implies lf.obs(j)
                == l0.obs(j) && lf.queued(j) == l0.queued(j) by {
                assert(lf.sinks@[j] == l0.sinks@[j]);
                lemma_idx_records_stable(l0, lf, l0.sinks@[j].delivered@);
                lemma_idx_records_stable(l0, lf, l0.sinks@[j].queue@);
            }
            lemma_idx_records_stable(l0, lf, q0);
            lemma_idx_records_stable(l0, lf, d0);
            assert(lf.sinks@[i as int].delivered@ == d0 + q0);
            assert((d0 + q0).map_values(|jj: usize| lf.batch_views()[jj as int]) =~= d0.map_values(
                |jj: usize| lf.batch_views()[jj as int],
            ) + q0.map_values(|jj: usize| lf.batch_views()[jj as int]));
            vstd::seq_lib::lemma_flatten_concat(
                d0.map_values(|jj: usize| lf.batch_views()[jj as int]),
                q0.map_values(|jj: usize| lf.batch_views()[jj as int]),
            );
            assert(lf.obs(i as int) == lf.idx_records(d0) + lf.idx_records(q0));
            assert(lf.idx_records(d0) == l0.idx_records(d0));
            assert(lf.idx_records(q0) == l0.idx_records(q0));
            assert(lf.obs(i as int) == l0.obs(i as int) + l0.queued(i as int));
            assert(lf.sinks@[i as int].queue@ =~= Seq::<usize>::empty());
            assert(lf.sinks@[i as int].queue@.map_values(|jj: usize| lf.batch_views()[jj as int])
                =~= Seq::<Seq<RecordView>>::empty());
            assert(lf.queued(i as int) =~= Seq::<RecordView>::empty());
            assert forall|j: int| 0 <= j < lf.sinks@.len() implies lf.obs(j) + lf.queued(j)
                == fmt_map(lf.cfg.format, lf.processed()) by {
                if j != i as int {
                    assert(lf.obs(j) + lf.queued(j) == l0.obs(j) + l0.queued(j));
                } else {
                    assert(lf.obs(j) + lf.queued(j) =~= l0.obs(j) + l0.queued(j));
                }
                assert(l0.obs(j) + l0.queued(j) == fmt_map(l0.cfg.format, l0.processed()));
            }
            assert(lf.entered@.skip(lf.entered@.len() - lf.ingress@.len()) == seq_views(
                lf.ingress@,
            ));
        }
        tokens
    }
}

// ---------------------------------------------------------------------------
// The shutdown protocol, run to completion.

/// Graceful exit, driven sequentially: enqueue the exit record, let the
/// formatter publish the batch that carries it and stop, then let every sink
/// worker drain its whole queue and stop. On return the formatter and every
/// sink have terminated and every sink has been handed the entire formatted
/// history — nothing enqueued before the exit is lost. The blocking
/// equivalent is what the worker threads of the surrounding process perform.
pub fn shutdown(l: &mut Logger) -> (r: Result<(), LogError>)
    requires
        old(l).inv(),
        old(l).formatter_alive,
        old(l).cfg.chan_len > 0 ==> forall|i: int|
            0 <= i < old(l).sinks@.len() ==> (#[trigger] old(l).sinks@[i].queue@.len()) < old(
                l,
            ).cfg.chan_len,
    ensures
        final(l).inv(),
        r is Ok <==> has_room(*old(l)),
        r is Err ==> *final(l) == *old(l),
        r is Ok ==> {
            &&& final(l).entered@ == old(l).entered@.push(control_view(Command::CommandExit, 0))
            &&& !final(l).formatter_alive
            &&& forall|i: int| 0 <= i < final(l).sinks@.len() ==> !(#[trigger] final(l).sinks@[i].alive)
            &&& forall|i: int|
                0 <= i < final(l).sinks@.len() ==> final(l).obs(i) == fmt_map(
                    final(l).cfg.format,
                    final(l).entered@,
                )
        },
{
    match exit(l) {
        Err(e) => {
            return Err(e);
        },
        Ok(()) => {},
    }
    let ghost l0 = *l;
    proof {
        let v = seq_views(l0.ingress@);
        assert(v[v.len() - 1] == l0.ingress@.last()@);
        assert(has_exit(v));
    }
    let _exit_seen = l.formatter_step();
    let ghost l1 = *l;
    proof {
        // Every sink's queue now ends in the formatted batch whose last
        // record carries the exit command.
        let iv = seq_views(l0.ingress@);
        let fm = fmt_map(l0.cfg.format, iv);
        assert(iv[iv.len() - 1] == l0.ingress@.last()@);
        assert(fm[fm.len() - 1] == spec_format_one(l0.cfg.format, iv[iv.len() - 1]));
        assert(fm[fm.len() - 1].command is CommandExit);
        assert forall|j: int| 0 <= j < l1.sinks@.len() implies has_exit(l1.queued(j)) by {
            assert(l1.queued(j) == l0.queued(j) + fm);
            let q = l1.queued(j);
            assert(q[q.len() - 1].command is CommandExit);
        }
    }
    let n = l.sinks.len();
    let mut i: usize = 0;
    while i < n
        invariant
            n == l.sinks@.len(),
            n == l1.sinks@.len(),
            i <= n,
            l.inv(),
            l1.inv(),
            l.ingress@.len() == 0,
            l.cfg == l1.cfg,
            l.entered == l1.entered,
            l.batches == l1.batches,
            l.formatter_alive == l1.formatter_alive,
            forall|j: int| 0 <= j < n as int ==> has_exit(#[trigger] l1.queued(j)),
            forall|j: int| i as int <= j < n as int ==> #[trigger] l.sinks@[j] == l1.sinks@[j],
            forall|j: int|
                0 <= j < i as int ==> (#[trigger] l.sinks@[j].queue@.len() == 0
                    && !l.sinks@[j].alive),
        decreases n - i,
    {
        proof {
            assert(l.sinks@[i as int] == l1.sinks@[i as int]);
            lemma_idx_records_stable(l1, *l, l1.sinks@[i as int].queue@);
            assert(l.queued(i as int) == l1.queued(i as int));
            assert(has_exit(l.queued(i as int)));
        }
        let _tokens = l.sink_step(i);
        i = i + 1;
    }
    proof {
        assert forall|i2: int| 0 <= i2 < l.sinks@.len() implies !(l.sinks@[i2].alive) by {
            assert(l.sinks@[i2].queue@.len() == 0 && !l.sinks@[i2].alive);
        }
        assert(l.processed() =~= l.entered@);
        assert forall|i2: int| 0 <= i2 < l.sinks@.len() implies l.obs(i2) == fmt_map(
            l.cfg.format,
            l.entered@,
        ) by {
            assert(l.sinks@[i2].queue@.map_values(|j: usize| l.batch_views()[j as int])
                =~= Seq::<Seq<RecordView>>::empty());
            assert(l.queued(i2) =~= Seq::<RecordView>::empty());
            assert(l.obs(i2) + l.queued(i2) == fmt_map(l.cfg.format, l.processed()));
            assert(l.obs(i2) =~= l.obs(i2) + l.queued(i2));
        }
    }
    Ok(())
}

/// The flush barrier, run to completion: enqueue the flush record, let the
/// formatter publish the batch that carries it, then drain every sink. On
/// return every sink has been handed the entire formatted history — in
/// particular every record accepted before the flush, and the flush record
/// itself, whose hand-off is the release the caller of the blocking
/// equivalent waits for.
pub fn flush_and_drain(l: &mut Logger) -> (r: Result<u64, LogError>)
    requires
        old(l).inv(),
        old(l).formatter_alive,
        old(l).cfg.chan_len > 0 ==> forall|i: int|
            0 <= i < old(l).sinks@.len() ==> (#[trigger] old(l).sinks@[i].queue@.len()) < old(
                l,
            ).cfg.chan_len,
    ensures
        final(l).inv(),
        r is Ok <==> has_room(*old(l)),
        r is Err ==> *final(l) == *old(l),
        r matches Ok(t) ==> {
            &&& t == old(l).next_token
            &&& final(l).entered@ == old(l).entered@.push(
                control_view(Command::CommandFlush(t), 0),
            )
            &&& forall|i: int|
                0 <= i < final(l).sinks@.len() ==> final(l).obs(i) == fmt_map(
                    final(l).cfg.format,
                    final(l).entered@,
                )
        },
{
    let t = match flush(l) {
        Err(e) => {
            return Err(e);
        },
        Ok(t) => t,
    };
    let _exit_seen = l.formatter_step();
    let ghost l1 = *l;
    let n = l.sinks.len();
    let mut i: usize = 0;
    while i < n
        invariant
            n == l.sinks@.len(),
            i <= n,
            l.inv(),
            l.ingress@.len() == 0,
            l.cfg == l1.cfg,
            l.entered == l1.entered,
            l.batches == l1.batches,
            forall|j: int| i as int <= j < n as int ==> #[trigger] l.sinks@[j] == l1.sinks@[j],
            forall|j: int| 0 <= j < i as int ==> #[trigger] l.sinks@[j].queue@.len() == 0,
        decreases n - i,
    {
        let _tokens = l.sink_step(i);
        i = i + 1;
    }
    proof {
        assert(l.processed() =~= l.entered@);
        assert forall|i2: int| 0 <= i2 < l.sinks@.len() implies l.obs(i2) == fmt_map(
            l.cfg.format,
            l.entered@,
        ) by {
            assert(l.sinks@[i2].queue@.map_values(|j: usize| l.batch_views()[j as int])
                =~= Seq::<Seq<RecordView>>::empty());
            assert(l.queued(i2) =~= Seq::<RecordView>::empty());
            assert(l.obs(i2) + l.queued(i2) == fmt_map(l.cfg.format, l.processed()));
            assert(l.obs(i2) =~= l.obs(i2) + l.queued(i2));
        }
    }
    Ok(t)
}

// ---------------------------------------------------------------------------
// Laws.

/// Ordering: everything a sink has observed is exactly the formatted prefix
/// of the history of accepted records, in emission order. No sink ever sees
/// a record early, late, twice, or unformatted.
pub proof fn lemma_sink_ordering(l: Logger, i: int)
    requires
        l.inv(),
        0 <= i < l.sinks@.len(),
    ensures
        l.obs(i).len() <= l.entered@.len(),
        l.obs(i) == fmt_map(l.cfg.format, l.entered@.take(l.obs(i).len() as int)),
{
    let f = l.cfg.format;
    let p = l.processed();
    let k = l.obs(i).len() as int;
    assert(l.obs(i) + l.queued(i) == fmt_map(f, p));
    assert(k <= p.len());
    assert(l.obs(i) =~= fmt_map(f, p).take(k));
    assert(fmt_map(f, p).take(k) =~= fmt_map(f, p.take(k)));
    assert(p.take(k) =~= l.entered@.take(k));
}

/// No format duplication: a record that already carries its line (for
/// instance one delivered through `print`) passes the formatter unchanged,
/// and formatting is idempotent, so a line is rendered exactly once.
pub proof fn lemma_format_once(fmt: FastLogFormat, r: RecordView)
    ensures
        r.formated.len() > 0 ==> spec_format_one(fmt, r) == r,
        spec_format_one(fmt, spec_format_one(fmt, r)) == spec_format_one(fmt, r),
{
    let r1 = spec_format_one(fmt, r);
    if r.formated.len() == 0 && r.command is CommandRecord {
        assert(spec_record_line(fmt, r).len() > 0);
        assert(r1.formated.len() > 0);
        assert(spec_format_one(fmt, r1) == r1);
    }
}

/// Flush barrier: once the flush record at history position `p` has been
/// handed to sink `i` (its token released), every record accepted before it
/// has already been handed to that sink, formatted.
pub proof fn lemma_flush_barrier(l: Logger, i: int, p: int, j: int)
    requires
        l.inv(),
        0 <= i < l.sinks@.len(),
        0 <= j < p < l.entered@.len(),
        l.entered@[p].command is CommandFlush,
        p < l.obs(i).len(),
    ensures
        l.obs(i)[j] == spec_format_one(l.cfg.format, l.entered@[j]),
{
    lemma_sink_ordering(l, i);
    let k = l.obs(i).len() as int;
    assert(l.obs(i)[j] == fmt_map(l.cfg.format, l.entered@.take(k))[j]);
}

/// The number of batches queued over all sinks.
pub open spec fn sum_queue_lens(s: Seq<SinkState>) -> int
    decreases s.len(),
{
    if s.len() == 0 {
        0
    } else {
        s[0].queue@.len() + sum_queue_lens(s.drop_first())
    }
}

proof fn lemma_sum_queue_bound(s: Seq<SinkState>, c: int)
    requires
        c >= 0,
        forall|i: int| 0 <= i < s.len() ==> (#[trigger] s[i].queue@.len()) <= c,
    ensures
        sum_queue_lens(s) <= s.len() * c,
    decreases s.len(),
{
    if s.len() == 0 {
    } else {
        assert(forall|i: int|
            0 <= i < s.drop_first().len() ==> (#[trigger] s.drop_first()[i].queue@.len()) <= c);
        lemma_sum_queue_bound(s.drop_first(), c);
        assert((s.len() - 1) * c + c == s.len() * c) by (nonlinear_arith);
    }
}

/// Bounded memory: with a bound configured, the units in flight between the
/// stages — records waiting on ingress plus batches waiting in sink queues —
/// never exceed the bound times one more than the number of sinks. (Each
/// worker additionally holds at most the one batch it is draining.)
pub proof fn lemma_bounded_in_flight(l: Logger)
    requires
        l.inv(),
        l.cfg.chan_len > 0,
    ensures
        l.ingress@.len() <= l.cfg.chan_len,
        forall|i: int|
            0 <= i < l.sinks@.len() ==> (#[trigger] l.sinks@[i].queue@.len()) <= l.cfg.chan_len,
        l.ingress@.len() + sum_queue_lens(l.sinks@) <= l.cfg.chan_len * (1 + l.sinks@.len()),
{
    lemma_sum_queue_bound(l.sinks@, l.cfg.chan_len as int);
    assert(l.cfg.chan_len + l.sinks@.len() * l.cfg.chan_len == l.cfg.chan_len * (1
        + l.sinks@.len())) by (nonlinear_arith);
}

} // verus!
