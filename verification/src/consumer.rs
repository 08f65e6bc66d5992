//! The sinks, as message-driven state machines.
//!
//! Each sink consumes one copy of the run's message stream.  The
//! decision logic — what a sink does with each message — lives here
//! with contracts; the channels, tasks and connections that carry the
//! messages are the unverified shell's business.

use vstd::prelude::*;

use crate::db::{record_matches, to_file_scan_record, FileScanRecord};
use crate::scan::{ConsumerConfig as RunConfig, ScanMessage, StorageEntity};
use crate::stats::{spec_command, stats_wf, ScanStats, StatsCalculator};
use crate::text::{chars_to_string, string_to_chars};

verus! {

/// Which sinks a run registers, and the bus capacity.
#[derive(Debug, Clone)]
pub struct ConsumerConfig {
    /// Register the console sink?
    pub enable_console_consumer: bool,
    /// Register the log sink?
    pub enable_log_consumer: bool,
    /// Register the database sink?
    pub enable_database_consumer: bool,
    /// Register the event-bus sink?
    pub enable_kafka_consumer: bool,
    /// The broadcast channel's capacity.
    pub channel_capacity: usize,
}

impl Default for ConsumerConfig {
    /// No optional sinks; the usual bus capacity.
    fn default() -> (r: Self)
        ensures
            !r.enable_console_consumer,
            !r.enable_log_consumer,
            !r.enable_database_consumer,
            !r.enable_kafka_consumer,
            r.channel_capacity == 10000,
    {
        ConsumerConfig {
            enable_console_consumer: false,
            enable_log_consumer: false,
            enable_database_consumer: false,
            enable_kafka_consumer: false,
            channel_capacity: 10000,
        }
    }
}

impl ConsumerConfig {
    /// Console and log sinks only.
    pub fn log_only() -> (r: Self)
        ensures
            r.enable_console_consumer,
            r.enable_log_consumer,
            !r.enable_database_consumer,
            !r.enable_kafka_consumer,
            r.channel_capacity == 10000,
    {
        ConsumerConfig {
            enable_console_consumer: true,
            enable_log_consumer: true,
            enable_database_consumer: false,
            enable_kafka_consumer: false,
            channel_capacity: 10000,
        }
    }

    /// Database and event-bus sinks as asked for, nothing else
    /// optional.
    pub fn enable_consumer(enable_database_consumer: bool, enable_kafka_consumer: bool) -> (r:
        Self)
        ensures
            !r.enable_console_consumer,
            !r.enable_log_consumer,
            r.enable_database_consumer == enable_database_consumer,
            r.enable_kafka_consumer == enable_kafka_consumer,
            r.channel_capacity == 10000,
    {
        ConsumerConfig {
            enable_console_consumer: false,
            enable_log_consumer: false,
            enable_database_consumer,
            enable_kafka_consumer,
            channel_capacity: 10000,
        }
    }

    /// Every sink.
    pub fn all_enabled() -> (r: Self)
        ensures
            r.enable_console_consumer,
            r.enable_log_consumer,
            r.enable_database_consumer,
            r.enable_kafka_consumer,
            r.channel_capacity == 10000,
    {
        ConsumerConfig {
            enable_console_consumer: true,
            enable_log_consumer: true,
            enable_database_consumer: true,
            enable_kafka_consumer: true,
            channel_capacity: 10000,
        }
    }

    /// A configuration with every choice spelled out.
    pub fn new(
        enable_console_consumer: bool,
        enable_log_consumer: bool,
        enable_database_consumer: bool,
        enable_kafka_consumer: bool,
        channel_capacity: usize,
    ) -> (r: Self)
        ensures
            r.enable_console_consumer == enable_console_consumer,
            r.enable_log_consumer == enable_log_consumer,
            r.enable_database_consumer == enable_database_consumer,
            r.enable_kafka_consumer == enable_kafka_consumer,
            r.channel_capacity == channel_capacity,
    {
        ConsumerConfig {
            enable_console_consumer,
            enable_log_consumer,
            enable_database_consumer,
            enable_kafka_consumer,
            channel_capacity,
        }
    }
}

/// The sinks a manager can register.
#[derive(Debug, Clone, Copy, PartialEq, Eq, Structural)]
pub enum SinkKind {
    /// The log sink.
    Log,
    /// The database sink.
    Database,
    /// The event-bus sink.
    Kafka,
    /// The console sink.
    Console,
}

/// The sinks a configuration registers, in registration order: log,
/// database and event-bus sinks when enabled, and the console sink
/// always, last.
pub open spec fn spec_enabled_sinks(c: ConsumerConfig) -> Seq<SinkKind> {
    (if c.enable_log_consumer {
        seq![SinkKind::Log]
    } else {
        Seq::empty()
    }) + (if c.enable_database_consumer {
        seq![SinkKind::Database]
    } else {
        Seq::empty()
    }) + (if c.enable_kafka_consumer {
        seq![SinkKind::Kafka]
    } else {
        Seq::empty()
    }) + seq![SinkKind::Console]
}

/// The sinks to register for a configuration.
pub fn enabled_sinks(c: &ConsumerConfig) -> (r: Vec<SinkKind>)
    ensures
        r@ == spec_enabled_sinks(*c),
{
    let mut r: Vec<SinkKind> = Vec::new();
    if c.enable_log_consumer {
        r.push(SinkKind::Log);
    }
    if c.enable_database_consumer {
        r.push(SinkKind::Database);
    }
    if c.enable_kafka_consumer {
        r.push(SinkKind::Kafka);
    }
    r.push(SinkKind::Console);
    proof {
        assert(r@ =~= spec_enabled_sinks(*c));
    }
    r
}

/// The parent directory of a path: the text before the last `/`
/// (`/` itself for a top-level absolute path, `.` for the root, empty
/// when there is no `/`).
pub open spec fn spec_parent(p: Seq<char>) -> Seq<char> {
    if p == "/"@ {
        "."@
    } else {
        let tail = crate::scan::after_last(p, '/');
        if tail.len() == p.len() {
            Seq::empty()
        } else if p.len() - tail.len() - 1 == 0 {
            "/"@
        } else {
            p.take(p.len() - tail.len() - 1)
        }
    }
}

/// The parent directory of a path.
pub fn parent_of(p: &str) -> (r: String)
    ensures
        r@ == spec_parent(p@),
{
    let chars = string_to_chars(p);
    let slash = string_to_chars("/");
    if crate::text::chars_eq(chars.as_slice(), slash.as_slice()) {
        return chars_to_string(string_to_chars("."));
    }
    let tail = crate::scan::after_last_exec(chars.as_slice(), '/');
    proof {
        crate::scan::lemma_after_last_len(chars@, '/');
    }
    if tail.len() == chars.len() {
        return chars_to_string(Vec::new());
    }
    let cut = chars.len() - tail.len() - 1;
    if cut == 0 {
        chars_to_string(string_to_chars("/"))
    } else {
        chars_to_string(crate::text::slice_range(chars.as_slice(), 0, cut))
    }
}

/// The console sink: accumulates statistics and prints the report on
/// completion.
#[derive(Debug, Clone)]
pub struct ConsoleConsumer {
    /// The running counters.
    pub stats: ScanStats,
    /// The depth calculator, created when the first result arrives.
    pub calculator: Option<StatsCalculator>,
    /// Has the `Config` message been seen?
    pub config_received: bool,
    /// Has the `Complete` message been seen?
    pub done: bool,
}

/// The console sink's counters stay non-negative.
pub open spec fn console_wf(c: ConsoleConsumer) -> bool {
    stats_wf(c.stats)
}

impl ConsoleConsumer {
    /// The sink's registered name.
    pub fn name(&self) -> (r: &'static str)
        ensures
            r@ == "console_consumer"@,
    {
        "console_consumer"
    }

    /// A fresh console sink.
    pub fn new() -> (r: ConsoleConsumer)
        ensures
            console_wf(r),
            !r.config_received,
            !r.done,
            r.calculator is None,
            r.stats.total_files == 0,
            r.stats.total_dirs == 0,
    {
        ConsoleConsumer {
            stats: ScanStats::default(),
            calculator: None,
            config_received: false,
            done: false,
        }
    }

    /// Take the run's configuration: record the reproducing command,
    /// the job id (or `unknown`) and the log path.
    pub fn on_config(&mut self, config: &RunConfig, log_path: &str)
        requires
            console_wf(*old(self)),
        ensures
            console_wf(*final (self)),
            final (self).config_received,
            final (self).stats.command@ == spec_command(config.scan_config.params),
            final (self).stats.job_id@ == match config.scan_config.params.id {
                Some(id) => id@,
                None => "unknown"@,
            },
            final (self).stats.log_path@ == log_path@,
            final (self).done == old(self).done,
            final (self).calculator == old(self).calculator,
            final (self).stats.total_files == old(self).stats.total_files,
            final (self).stats.total_dirs == old(self).stats.total_dirs,
            final (self).stats.matched_files == old(self).stats.matched_files,
            final (self).stats.matched_dirs == old(self).stats.matched_dirs,
            final (self).stats.total_size == old(self).stats.total_size,
    {
        self.stats.command = ScanStats::build_command(&config.scan_config.params);
        self.stats.job_id = match &config.scan_config.params.id {
            Some(id) => id.clone(),
            None => chars_to_string(string_to_chars("unknown")),
        };
        self.stats.log_path = chars_to_string(string_to_chars(log_path));
        self.config_received = true;
    }

    /// Count one surviving entry.  The first result fixes the base
    /// path (the entry's parent directory) that depths are measured
    /// against; a directory contributes its name length and depth, a
    /// file its size, name length and link kind.
    pub fn on_result(&mut self, result: &StorageEntity)
        requires
            console_wf(*old(self)),
        ensures
            console_wf(*final (self)),
            final (self).calculator matches Some(c) ==> (match old(self).calculator {
                Some(c0) => c == c0,
                None => c.base_path@ == spec_parent(result.file_path@),
            }),
            final (self).calculator is Some,
            final (self).stats.total_dirs == if result.is_dir && old(self).stats.total_dirs
                < usize::MAX {
                old(self).stats.total_dirs + 1
            } else {
                old(self).stats.total_dirs as int
            },
            final (self).stats.total_files == if !result.is_dir && old(self).stats.total_files
                < usize::MAX {
                old(self).stats.total_files + 1
            } else {
                old(self).stats.total_files as int
            },
            final (self).stats.total_size == if result.is_dir {
                old(self).stats.total_size as int
            } else {
                crate::stats::sat_add(old(self).stats.total_size as int, result.size as int)
            },
            final (self).config_received == old(self).config_received,
            final (self).done == old(self).done,
    {
        if self.calculator.is_none() {
            let base = parent_of(result.file_path.as_str());
            self.calculator = Some(StatsCalculator::new(base.as_str()));
        }
        let depth: usize;
        if result.is_dir {
            if self.stats.total_dirs < usize::MAX {
                self.stats.total_dirs = self.stats.total_dirs + 1;
            }
            depth = match &self.calculator {
                Some(c) => c.calculate_depth(result.file_path.as_str()),
                None => 1,
            };
        } else {
            if self.stats.total_files < usize::MAX {
                self.stats.total_files = self.stats.total_files + 1;
            }
            depth = 0;
        }
        match &self.calculator {
            Some(c) => {
                if result.is_dir {
                    c.update_dir_stats(&mut self.stats, result.file_name.as_str(), depth);
                } else {
                    c.update_file_stats(
                        &mut self.stats,
                        result.file_name.as_str(),
                        result.size,
                        result.is_symlink,
                    );
                }
            },
            None => {
                proof {
                    assert(false);
                }
            },
        }
    }

    /// Finish the run: freeze the duration, fall back to default
    /// metadata when no configuration was seen, and render the report.
    pub fn on_complete(&mut self, total_time: &str, fallback_log_path: &str) -> (r: String)
        requires
            console_wf(*old(self)),
        ensures
            console_wf(*final (self)),
            final (self).done,
            final (self).stats.total_time@ == total_time@,
            r@ == crate::stats::spec_report(final (self).stats),
    {
        self.stats.total_time = chars_to_string(string_to_chars(total_time));
        if !self.config_received {
            self.stats.command = chars_to_string(string_to_chars("terrasync scan"));
            self.stats.job_id = chars_to_string(string_to_chars("unknown"));
            self.stats.log_path = chars_to_string(string_to_chars(fallback_log_path));
        }
        self.done = true;
        self.stats.format_report()
    }
}

} // verus!

verus! {

/// Where the database sink stands in its lifecycle.
#[derive(Debug, Clone, Copy, PartialEq, Eq, Structural)]
pub enum DbSinkPhase {
    /// No usable database yet; results are ignored.
    Idle,
    /// Connected and tables created; results are batched.
    Ready,
    /// The run is over.
    Done,
}

/// The database sink: batches the run's records and flushes a full
/// batch at a time.  The connection work itself — ping, table
/// creation, executing the inserts — happens outside; this machine
/// decides what to buffer and when a batch leaves.
#[derive(Debug, Clone)]
pub struct DatabaseConsumer {
    /// The lifecycle phase.
    pub phase: DbSinkPhase,
    /// The sanitized job id, once configured.
    pub job_id: String,
    /// The batch capacity, once configured.
    pub batch_size: u32,
    /// The records buffered since the last flush.
    pub batch: Vec<FileScanRecord>,
}

impl DatabaseConsumer {
    /// The sink's registered name.
    pub fn name(&self) -> (r: &'static str)
        ensures
            r@ == "database_consumer"@,
    {
        "database_consumer"
    }

    /// A fresh, idle database sink.
    pub fn new() -> (r: DatabaseConsumer)
        ensures
            r.phase is Idle,
            r.batch@.len() == 0,
    {
        DatabaseConsumer {
            phase: DbSinkPhase::Idle,
            job_id: String::new(),
            batch_size: 0,
            batch: Vec::new(),
        }
    }

    /// Take the run's configuration.  `ready` reports whether the
    /// outside work — connecting, creating the per-job tables and
    /// seeding the state row — succeeded; without it the sink stays
    /// idle and ignores every result.
    pub fn on_config(&mut self, config: &RunConfig, ready: bool)
        ensures
            final (self).phase == if ready {
                DbSinkPhase::Ready
            } else {
                DbSinkPhase::Idle
            },
            final (self).job_id@ == crate::sanitize_spec(config.job_id@),
            final (self).batch_size == config.database.batch_size,
            final (self).batch@ == old(self).batch@,
    {
        self.job_id = crate::sanitize_job_id(config.job_id.as_str());
        self.batch_size = config.database.batch_size;
        self.phase = if ready {
            DbSinkPhase::Ready
        } else {
            DbSinkPhase::Idle
        };
    }

    /// Take one result.  When the sink is ready the record is
    /// buffered, and a batch that has reached the configured capacity
    /// is handed back for insertion (leaving the buffer empty); in any
    /// other phase the result is ignored.
    pub fn on_result(&mut self, entity: &StorageEntity) -> (r: Option<Vec<FileScanRecord>>)
        ensures
            !(old(self).phase is Ready) ==> r is None && *final (self) == *old(self),
            old(self).phase is Ready ==> {
                &&& final (self).phase is Ready
                &&& final (self).batch@.len() == if r is Some {
                    0int
                } else {
                    old(self).batch@.len() + 1int
                }
                &&& (r is Some) == (old(self).batch@.len() + 1 >= old(self).batch_size)
                &&& match r {
                    Some(v) => v@.len() == old(self).batch@.len() + 1 && (forall|i: int|
                        0 <= i < old(self).batch@.len() ==> v@[i] == old(self).batch@[i])
                        && record_matches(v@.last(), *entity),
                    None => final (self).batch@.len() == old(self).batch@.len() + 1 && (forall|
                        i: int,
                    |
                        0 <= i < old(self).batch@.len() ==> final (self).batch@[i] == old(
                            self,
                        ).batch@[i]) && record_matches(final (self).batch@.last(), *entity),
                }
                &&& final (self).batch_size == old(self).batch_size
                &&& final (self).job_id == old(self).job_id
            },
    {
        match self.phase {
            DbSinkPhase::Ready => {
                let rec = to_file_scan_record(entity);
                self.batch.push(rec);
                if self.batch.len() >= self.batch_size as usize {
                    let mut out: Vec<FileScanRecord> = Vec::new();
                    core::mem::swap(&mut out, &mut self.batch);
                    Some(out)
                } else {
                    None
                }
            },
            _ => None,
        }
    }

    /// Finish the run: hand back any residual batch (or nothing when
    /// the buffer is empty or the sink never became ready) and stop.
    pub fn on_complete(&mut self) -> (r: Option<Vec<FileScanRecord>>)
        ensures
            final (self).phase is Done,
            final (self).batch@.len() == 0,
            match r {
                Some(v) => old(self).phase is Ready && v@ == old(self).batch@ && v@.len() > 0,
                None => !(old(self).phase is Ready) || old(self).batch@.len() == 0,
            },
    {
        let was_ready = match self.phase {
            DbSinkPhase::Ready => true,
            _ => false,
        };
        self.phase = DbSinkPhase::Done;
        if was_ready && self.batch.len() > 0 {
            let mut out: Vec<FileScanRecord> = Vec::new();
            core::mem::swap(&mut out, &mut self.batch);
            Some(out)
        } else {
            let mut empty: Vec<FileScanRecord> = Vec::new();
            core::mem::swap(&mut empty, &mut self.batch);
            None
        }
    }
}

/// The log sink: it acknowledges every message and stops on
/// completion.
#[derive(Debug, Clone)]
pub struct LogConsumer {
    /// How many results have been seen (saturating).
    pub seen_results: u64,
    /// Has the `Complete` message been seen?
    pub done: bool,
}

impl LogConsumer {
    /// The sink's registered name.
    pub fn name(&self) -> (r: &'static str)
        ensures
            r@ == "log_consumer"@,
    {
        "log_consumer"
    }

    /// A fresh log sink.
    pub fn new() -> (r: LogConsumer)
        ensures
            r.seen_results == 0,
            !r.done,
    {
        LogConsumer { seen_results: 0, done: false }
    }

    /// Take one message: results are counted, completion stops the
    /// sink, the configuration is ignored.
    pub fn on_message(&mut self, msg: &ScanMessage)
        ensures
            final (self).seen_results == if msg is Result && old(self).seen_results < u64::MAX {
                old(self).seen_results + 1
            } else {
                old(self).seen_results as int
            },
            final (self).done == (old(self).done || msg is Complete),
    {
        match msg {
            ScanMessage::Result(_) => {
                if self.seen_results < u64::MAX {
                    self.seen_results = self.seen_results + 1;
                }
            },
            ScanMessage::Complete => {
                self.done = true;
            },
            ScanMessage::Config(_) => {},
        }
    }
}

/// The event-bus sink: it forwards every result and stops on
/// completion.  Publishing is best-effort and happens outside.
#[derive(Debug, Clone)]
pub struct KafkaConsumer {
    /// How many results have been forwarded (saturating).
    pub forwarded: u64,
    /// Has the `Complete` message been seen?
    pub done: bool,
}

impl KafkaConsumer {
    /// The sink's registered name.
    pub fn name(&self) -> (r: &'static str)
        ensures
            r@ == "kafka_consumer"@,
    {
        "kafka_consumer"
    }

    /// A fresh event-bus sink.
    pub fn new() -> (r: KafkaConsumer)
        ensures
            r.forwarded == 0,
            !r.done,
    {
        KafkaConsumer { forwarded: 0, done: false }
    }

    /// Take one message; a `Result` is the one kind forwarded.
    pub fn on_message(&mut self, msg: &ScanMessage) -> (forward: bool)
        ensures
            forward == (msg is Result),
            final (self).forwarded == if msg is Result && old(self).forwarded < u64::MAX {
                old(self).forwarded + 1
            } else {
                old(self).forwarded as int
            },
            final (self).done == (old(self).done || msg is Complete),
    {
        match msg {
            ScanMessage::Result(_) => {
                if self.forwarded < u64::MAX {
                    self.forwarded = self.forwarded + 1;
                }
                true
            },
            ScanMessage::Complete => {
                self.done = true;
                false
            },
            ScanMessage::Config(_) => false,
        }
    }
}

/// The notification sink: like the event-bus sink, it hands every
/// result to an outside notifier.
#[derive(Debug, Clone)]
pub struct NotificationConsumer {
    /// How many notifications have been sent (saturating).
    pub notified: u64,
    /// Has the `Complete` message been seen?
    pub done: bool,
}

impl NotificationConsumer {
    /// The sink's registered name.
    pub fn name(&self) -> (r: &'static str)
        ensures
            r@ == "notification_consumer"@,
    {
        "notification_consumer"
    }

    /// A fresh notification sink.
    pub fn new() -> (r: NotificationConsumer)
        ensures
            r.notified == 0,
            !r.done,
    {
        NotificationConsumer { notified: 0, done: false }
    }

    /// Take one message; a `Result` is the one kind notified.
    pub fn on_message(&mut self, msg: &ScanMessage) -> (notify: bool)
        ensures
            notify == (msg is Result),
            final (self).notified == if msg is Result && old(self).notified < u64::MAX {
                old(self).notified + 1
            } else {
                old(self).notified as int
            },
            final (self).done == (old(self).done || msg is Complete),
    {
        match msg {
            ScanMessage::Result(_) => {
                if self.notified < u64::MAX {
                    self.notified = self.notified + 1;
                }
                true
            },
            ScanMessage::Complete => {
                self.done = true;
                false
            },
            ScanMessage::Config(_) => false,
        }
    }
}

} // verus!
