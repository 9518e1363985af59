//! Log levels and formats, and the slow query log.
use vstd::prelude::*;
use std::time::{Duration, Instant};
use crate::text::{
    clone_strings, join_spec, join_strings, spec_to_lowercase, string_of, to_lowercase,
    u64_to_decimal, views, decimal_spec,
};

verus! {

/// Default number of entries kept by the slow query log.
pub const DEFAULT_SLOWLOG_MAX_LEN: usize = 128;

/// Default slow query threshold in microseconds (10 ms).
pub const DEFAULT_SLOWLOG_THRESHOLD_US: u64 = 10000;

/// Severity of a log record.
#[allow(non_camel_case_types)]
#[derive(Debug, Clone, Copy, PartialEq, Eq, Structural)]
pub enum Level {
    /// Finest detail.
    TRACE,
    /// Debugging detail.
    DEBUG,
    /// Normal operation.
    INFO,
    /// Something unexpected.
    WARN,
    /// A failure.
    ERROR,
}

/// Format of log records.
#[derive(Debug, Clone, Copy, PartialEq, Eq, Structural)]
pub enum LogFormat {
    /// Plain text.
    Text,
    /// JSON records.
    Json,
}

impl Default for LogFormat {
    fn default() -> (r: Self)
        ensures
            r == LogFormat::Text,
    {
        LogFormat::Text
    }
}

/// The format that lower-case text names: "text" and "plain" name text
/// records, "json" JSON records.
pub open spec fn log_format_of(lower: Seq<char>) -> Option<LogFormat> {
    if lower == "text"@ || lower == "plain"@ {
        Some(LogFormat::Text)
    } else if lower == "json"@ {
        Some(LogFormat::Json)
    } else {
        None
    }
}

/// The level that lower-case text names.
pub open spec fn level_of(lower: Seq<char>) -> Option<Level> {
    if lower == "trace"@ {
        Some(Level::TRACE)
    } else if lower == "debug"@ {
        Some(Level::DEBUG)
    } else if lower == "info"@ {
        Some(Level::INFO)
    } else if lower == "warn"@ || lower == "warning"@ {
        Some(Level::WARN)
    } else if lower == "error"@ {
        Some(Level::ERROR)
    } else {
        None
    }
}

/// The lower-case name of a level.
pub open spec fn level_name(level: Level) -> Seq<char> {
    match level {
        Level::TRACE => "trace"@,
        Level::DEBUG => "debug"@,
        Level::INFO => "info"@,
        Level::WARN => "warn"@,
        Level::ERROR => "error"@,
    }
}

impl LogFormat {
    /// The format named by already lower-cased text.
    pub fn from_lowercase(lower: &str) -> (r: Option<Self>)
        ensures
            r == log_format_of(lower@),
    {
        if crate::text::str_eq(lower, "text") || crate::text::str_eq(lower, "plain") {
            Some(LogFormat::Text)
        } else if crate::text::str_eq(lower, "json") {
            Some(LogFormat::Json)
        } else {
            None
        }
    }

    /// Parses a format name, ignoring case.
    pub fn parse(s: &str) -> (r: Option<Self>)
        ensures
            r == log_format_of(spec_to_lowercase(s@)),
            crate::text::all_ascii(s@) ==> r == log_format_of(s@.map_values(|c: char| crate::text::ascii_lower(c))),
    {
        let lower = to_lowercase(s);
        LogFormat::from_lowercase(lower.as_str())
    }
}

/// Logging settings.
#[derive(Debug, Clone)]
pub struct LogConfig {
    /// Level.
    pub level: Level,
    /// Record format.
    pub format: LogFormat,
    /// Log file, or none for standard output only.
    pub file_path: Option<String>,
    /// Whether to log to the console.
    pub console: bool,
    /// File size that triggers rotation, in bytes.
    pub max_size: u64,
    /// Rotated files kept.
    pub max_backups: usize,
}

impl Default for LogConfig {
    fn default() -> (r: Self)
        ensures
            r.level == Level::INFO,
            r.format == LogFormat::Text,
            r.file_path is None,
            r.console,
            r.max_size == 100 * 1024 * 1024,
            r.max_backups == 10,
    {
        LogConfig {
            level: Level::INFO,
            format: LogFormat::Text,
            file_path: None,
            console: true,
            max_size: 100 * 1024 * 1024,
            max_backups: 10,
        }
    }
}

impl LogConfig {
    /// The level named by already lower-cased text.
    pub fn level_from_lowercase(lower: &str) -> (r: Option<Level>)
        ensures
            r == level_of(lower@),
    {
        if crate::text::str_eq(lower, "trace") {
            Some(Level::TRACE)
        } else if crate::text::str_eq(lower, "debug") {
            Some(Level::DEBUG)
        } else if crate::text::str_eq(lower, "info") {
            Some(Level::INFO)
        } else if crate::text::str_eq(lower, "warn") || crate::text::str_eq(lower, "warning") {
            Some(Level::WARN)
        } else if crate::text::str_eq(lower, "error") {
            Some(Level::ERROR)
        } else {
            None
        }
    }

    /// Parses a level name, ignoring case.
    pub fn parse_level(s: &str) -> (r: Option<Level>)
        ensures
            r == level_of(spec_to_lowercase(s@)),
            crate::text::all_ascii(s@) ==> r == level_of(s@.map_values(|c: char| crate::text::ascii_lower(c))),
    {
        let lower = to_lowercase(s);
        LogConfig::level_from_lowercase(lower.as_str())
    }

    /// The lower-case name of a level.
    pub fn level_to_string(level: Level) -> (r: &'static str)
        ensures
            r@ == level_name(level),
    {
        match level {
            Level::TRACE => "trace",
            Level::DEBUG => "debug",
            Level::INFO => "info",
            Level::WARN => "warn",
            Level::ERROR => "error",
        }
    }
}

/// The log's name for the microseconds that std's `Duration::as_micros`
/// reports.
pub uninterp spec fn spec_duration_as_micros(d: Duration) -> u128;

/// Whole microseconds of a duration (std's `Duration::as_micros`).
#[verifier::external_body]
pub(crate) fn duration_as_micros(d: &Duration) -> (r: u128)
    ensures
        r == spec_duration_as_micros(*d),
{
    d.as_micros()
}

/// Seconds since the Unix epoch now, or 0 if the clock is before it; the
/// value depends on the clock.
pub(crate) fn unix_time_secs() -> (r: u64) {
    let now = crate::clock::system_now();
    match crate::clock::since_epoch(&now) {
        Ok(d) => crate::clock::duration_as_secs(&d),
        Err(_) => 0,
    }
}

#[verifier::external_type_specification]
#[verifier::external_body]
pub struct ExInstant(Instant);

/// The time elapsed since `start` (std's `Instant::elapsed`); it depends on
/// the clock.
#[verifier::external_body]
pub(crate) fn instant_elapsed(start: &Instant) -> (r: Duration) {
    start.elapsed()
}

/// `after` is the log `before` becomes when a query `command args` that
/// took `d` is recorded (see `SlowQueryLog::record`): unchanged below the
/// threshold; else the entry, with the next id, goes first and the oldest
/// entries beyond the capacity are dropped.
pub open spec fn slow_log_records(
    before: SlowQueryLog,
    after: SlowQueryLog,
    command: Seq<char>,
    args: Seq<String>,
    d: Duration,
    client_addr: Option<String>,
) -> bool {
    &&& (spec_duration_as_micros(d) as u64) < before.spec_threshold_us() ==> after@ == before@ && after.spec_next_id()
        == before.spec_next_id()
    &&& (spec_duration_as_micros(d) as u64) >= before.spec_threshold_us() ==> (exists|e: SlowQueryEntry|
        #[trigger] entry_for(e, before.spec_next_id(), command, args, spec_duration_as_micros(d) as u64, client_addr)
            && after@ == after_record(before@, e, before.spec_max_len() as nat)) && after.spec_next_id()
        == before.spec_next_id().wrapping_add(1)
    &&& after.spec_max_len() == before.spec_max_len()
    &&& after.spec_threshold_us() == before.spec_threshold_us()
}

/// One recorded slow query.
#[derive(Debug, Clone)]
pub struct SlowQueryEntry {
    /// Unique id.
    pub id: u64,
    /// Unix time of recording, in seconds.
    pub timestamp: u64,
    /// Execution time in microseconds.
    pub duration_us: u64,
    /// Command name.
    pub command: String,
    /// Arguments.
    pub args: Vec<String>,
    /// Client address, if known.
    pub client_addr: Option<String>,
}

/// Two entries hold the same content.
pub open spec fn same_entry(a: SlowQueryEntry, b: SlowQueryEntry) -> bool {
    &&& a.id == b.id
    &&& a.timestamp == b.timestamp
    &&& a.duration_us == b.duration_us
    &&& a.command@ == b.command@
    &&& views(a.args@) == views(b.args@)
    &&& a.client_addr == b.client_addr
}

impl SlowQueryEntry {
    /// A copy of the entry.
    pub fn copy(&self) -> (r: Self)
        ensures
            same_entry(r, *self),
            r.args@ == self.args@,
    {
        SlowQueryEntry {
            id: self.id,
            timestamp: self.timestamp,
            duration_us: self.duration_us,
            command: self.command.clone(),
            args: clone_strings(&self.args),
            client_addr: match &self.client_addr {
                Some(a) => Some(a.clone()),
                None => None,
            },
        }
    }

    /// The entry as (field, value) pairs: id, timestamp, duration_us,
    /// command, and the arguments joined by spaces.
    pub fn to_resp_array(&self) -> (r: Vec<(String, String)>)
        ensures
            r@.len() == 5,
            r@[0].0@ == "id"@ && r@[0].1@ == decimal_spec(self.id as nat),
            r@[1].0@ == "timestamp"@ && r@[1].1@ == decimal_spec(self.timestamp as nat),
            r@[2].0@ == "duration_us"@ && r@[2].1@ == decimal_spec(self.duration_us as nat),
            r@[3].0@ == "command"@ && r@[3].1@ == self.command@,
            r@[4].0@ == "args"@ && r@[4].1@ == join_spec(views(self.args@), " "@),
    {
        let mut r: Vec<(String, String)> = Vec::new();
        r.push((string_of("id"), u64_to_decimal(self.id)));
        r.push((string_of("timestamp"), u64_to_decimal(self.timestamp)));
        r.push((string_of("duration_us"), u64_to_decimal(self.duration_us)));
        r.push((string_of("command"), self.command.clone()));
        r.push((string_of("args"), join_strings(&self.args, " ")));
        r
    }
}

/// `e` records the query with the given id, command, arguments, duration
/// and client (its timestamp is the clock's).
pub open spec fn entry_for(
    e: SlowQueryEntry,
    id: u64,
    command: Seq<char>,
    args: Seq<String>,
    duration_us: u64,
    client_addr: Option<String>,
) -> bool {
    &&& e.id == id
    &&& e.duration_us == duration_us
    &&& e.command@ == command
    &&& e.args@ == args
    &&& e.client_addr == client_addr
}

/// The entries kept after recording `e`: the newest first, at most
/// `max_len` of them.
pub open spec fn after_record(entries: Seq<SlowQueryEntry>, e: SlowQueryEntry, max_len: nat) -> Seq<SlowQueryEntry> {
    let all = seq![e] + entries;
    if all.len() > max_len {
        all.subrange(0, max_len as int)
    } else {
        all
    }
}

/// Slow query log: the slowest recent commands, newest first.
#[derive(Debug)]
pub struct SlowQueryLog {
    entries: Vec<SlowQueryEntry>,
    max_len: usize,
    threshold_us: u64,
    next_id: u64,
}

impl View for SlowQueryLog {
    type V = Seq<SlowQueryEntry>;

    closed spec fn view(&self) -> Seq<SlowQueryEntry> {
        self.entries@
    }
}

impl Default for SlowQueryLog {
    fn default() -> (r: Self)
        ensures
            r@.len() == 0,
            r.spec_max_len() == DEFAULT_SLOWLOG_MAX_LEN,
            r.spec_threshold_us() == DEFAULT_SLOWLOG_THRESHOLD_US,
            r.spec_next_id() == 0,
    {
        SlowQueryLog::new()
    }
}

impl SlowQueryLog {
    /// Entries kept at most.
    pub closed spec fn spec_max_len(&self) -> usize {
        self.max_len
    }

    /// Threshold in microseconds.
    pub closed spec fn spec_threshold_us(&self) -> u64 {
        self.threshold_us
    }

    /// Id of the next entry.
    pub closed spec fn spec_next_id(&self) -> u64 {
        self.next_id
    }

    /// An empty log keeping 128 entries of queries of 10 ms or more.
    pub fn new() -> (r: Self)
        ensures
            r@.len() == 0,
            r.spec_max_len() == DEFAULT_SLOWLOG_MAX_LEN,
            r.spec_threshold_us() == DEFAULT_SLOWLOG_THRESHOLD_US,
            r.spec_next_id() == 0,
    {
        SlowQueryLog {
            entries: Vec::new(),
            max_len: DEFAULT_SLOWLOG_MAX_LEN,
            threshold_us: DEFAULT_SLOWLOG_THRESHOLD_US,
            next_id: 0,
        }
    }

    /// An empty log with the given capacity and threshold.
    pub fn with_settings(max_len: usize, threshold_us: u64) -> (r: Self)
        ensures
            r@.len() == 0,
            r.spec_max_len() == max_len,
            r.spec_threshold_us() == threshold_us,
            r.spec_next_id() == 0,
    {
        SlowQueryLog { entries: Vec::new(), max_len, threshold_us, next_id: 0 }
    }

    /// The threshold in microseconds.
    pub fn threshold_us(&self) -> (r: u64)
        ensures
            r == self.spec_threshold_us(),
    {
        self.threshold_us
    }

    /// Sets the threshold.
    pub fn set_threshold_us(&mut self, threshold: u64)
        ensures
            final(self).spec_threshold_us() == threshold,
            final(self)@ == old(self)@,
            final(self).spec_max_len() == old(self).spec_max_len(),
            final(self).spec_next_id() == old(self).spec_next_id(),
    {
        self.threshold_us = threshold;
    }

    /// The number of entries kept at most.
    pub fn max_len(&self) -> (r: usize)
        ensures
            r == self.spec_max_len(),
    {
        self.max_len
    }

    /// Sets the capacity, dropping the oldest entries beyond it.
    pub fn set_max_len(&mut self, max_len: usize)
        ensures
            final(self).spec_max_len() == max_len,
            final(self)@ == (if old(self)@.len() > max_len {
                old(self)@.subrange(0, max_len as int)
            } else {
                old(self)@
            }),
            final(self).spec_threshold_us() == old(self).spec_threshold_us(),
            final(self).spec_next_id() == old(self).spec_next_id(),
    {
        self.max_len = max_len;
        self.entries.truncate(max_len);
    }

    /// Records a query that took `duration`, when that is at least the
    /// threshold: the entry, with the next id and the current time, goes
    /// first and the oldest entries beyond the capacity are dropped.
    pub fn record(&mut self, command: &str, args: &[String], duration: Duration, client_addr: Option<String>)
        ensures
            (spec_duration_as_micros(duration) as u64) < old(self).spec_threshold_us() ==> final(self)@ == old(self)@
                && final(self).spec_next_id() == old(self).spec_next_id(),
            (spec_duration_as_micros(duration) as u64) >= old(self).spec_threshold_us() ==> (exists|e: SlowQueryEntry|
                #[trigger] entry_for(e, old(self).spec_next_id(), command@, args@, spec_duration_as_micros(duration) as u64, client_addr)
                && final(self)@ == after_record(old(self)@, e, old(self).spec_max_len() as nat))
                && final(self).spec_next_id() == old(self).spec_next_id().wrapping_add(1),
            final(self).spec_max_len() == old(self).spec_max_len(),
            final(self).spec_threshold_us() == old(self).spec_threshold_us(),
    {
        let duration_us = duration_as_micros(&duration) as u64;
        if duration_us < self.threshold_us {
            return;
        }
        let id = self.next_id;
        self.next_id = self.next_id.wrapping_add(1);
        let mut arg_copy: Vec<String> = Vec::new();
        let mut i: usize = 0;
        while i < args.len()
            invariant
                i <= args@.len(),
                arg_copy@ =~= args@.subrange(0, i as int),
            decreases args@.len() - i,
        {
            arg_copy.push(args[i].clone());
            i = i + 1;
        }
        proof {
            assert(args@.subrange(0, args@.len() as int) =~= args@);
        }
        let entry = SlowQueryEntry {
            id,
            timestamp: unix_time_secs(),
            duration_us,
            command: string_of(command),
            args: arg_copy,
            client_addr,
        };
        let ghost e = entry;
        self.entries.insert(0, entry);
        let max_len = self.max_len;
        proof {
            assert(self.entries@ =~= seq![e] + old(self).entries@);
        }
        self.entries.truncate(max_len);
        proof {
            assert(self.entries@ == after_record(old(self).entries@, e, old(self).max_len as nat));
            assert(entry_for(e, old(self).next_id, command@, args@, spec_duration_as_micros(duration) as u64, client_addr));
        }
    }

    /// Copies of the `count` newest entries.
    pub fn get(&self, count: usize) -> (r: Vec<SlowQueryEntry>)
        ensures
            r@.len() == if count < self@.len() {
                count as nat
            } else {
                self@.len()
            },
            forall|i: int| 0 <= i < r@.len() ==> same_entry(#[trigger] r@[i], self@[i]),
    {
        let mut r: Vec<SlowQueryEntry> = Vec::new();
        let mut i: usize = 0;
        while i < self.entries.len() && i < count
            invariant
                i <= self.entries@.len(),
                i <= count,
                r@.len() == i,
                forall|j: int| 0 <= j < i ==> same_entry(#[trigger] r@[j], self.entries@[j]),
            decreases self.entries@.len() - i,
        {
            r.push(self.entries[i].copy());
            i = i + 1;
        }
        r
    }

    /// Number of entries.
    pub fn len(&self) -> (r: usize)
        ensures
            r == self@.len(),
    {
        self.entries.len()
    }

    /// Whether the log holds no entry.
    pub fn is_empty(&self) -> (r: bool)
        ensures
            r == (self@.len() == 0),
    {
        self.len() == 0
    }

    /// Drops all entries.
    pub fn reset(&mut self)
        ensures
            final(self)@.len() == 0,
            final(self).spec_max_len() == old(self).spec_max_len(),
            final(self).spec_threshold_us() == old(self).spec_threshold_us(),
            final(self).spec_next_id() == old(self).spec_next_id(),
    {
        self.entries.clear();
    }
}

/// Recording keeps the slow query log within its capacity, puts the new
/// entry first and keeps the previous entries, newest first, behind it.
pub proof fn law_slowlog_record(entries: Seq<SlowQueryEntry>, e: SlowQueryEntry, max_len: nat)
    requires
        entries.len() <= max_len,
    ensures
        after_record(entries, e, max_len).len() <= max_len,
        max_len > 0 ==> after_record(entries, e, max_len)[0] == e,
        forall|i: int|
            1 <= i < after_record(entries, e, max_len).len() ==> #[trigger] after_record(entries, e, max_len)[i]
                == entries[i - 1],
{
}

/// Dynamic log level and the slow query log.
#[derive(Debug)]
pub struct LoggingManager {
    current_level: Level,
    slow_query_log: SlowQueryLog,
}

impl Default for LoggingManager {
    fn default() -> (r: Self)
        ensures
            r.spec_level() == Level::INFO,
            r.slow_query_log_view()@.len() == 0,
    {
        LoggingManager::new()
    }
}

impl LoggingManager {
    /// The current level.
    pub closed spec fn spec_level(&self) -> Level {
        self.current_level
    }

    /// The slow query log.
    pub closed spec fn slow_query_log_view(&self) -> SlowQueryLog {
        self.slow_query_log
    }

    /// A manager at level INFO with a default slow query log.
    pub fn new() -> (r: Self)
        ensures
            r.spec_level() == Level::INFO,
            r.slow_query_log_view()@.len() == 0,
            r.slow_query_log_view().spec_threshold_us() == DEFAULT_SLOWLOG_THRESHOLD_US,
    {
        LoggingManager { current_level: Level::INFO, slow_query_log: SlowQueryLog::new() }
    }

    /// A manager at the given level.
    pub fn with_level(level: Level) -> (r: Self)
        ensures
            r.spec_level() == level,
            r.slow_query_log_view()@.len() == 0,
            r.slow_query_log_view().spec_threshold_us() == DEFAULT_SLOWLOG_THRESHOLD_US,
    {
        LoggingManager { current_level: level, slow_query_log: SlowQueryLog::new() }
    }

    /// The current level.
    pub fn level(&self) -> (r: Level)
        ensures
            r == self.spec_level(),
    {
        self.current_level
    }

    /// Changes the level.
    pub fn set_level(&mut self, level: Level)
        ensures
            final(self).spec_level() == level,
            final(self).slow_query_log_view() == old(self).slow_query_log_view(),
    {
        self.current_level = level;
    }

    /// The slow query log.
    pub fn slow_query_log(&self) -> (r: &SlowQueryLog)
        ensures
            *r == self.slow_query_log_view(),
    {
        &self.slow_query_log
    }

    /// Records a command that started at `start` in the slow query log: the
    /// log records it as `SlowQueryLog::record` does for the time elapsed
    /// since `start`, which depends on the clock.
    pub fn record_command(&mut self, command: &str, args: &[String], start: &Instant)
        ensures
            final(self).spec_level() == old(self).spec_level(),
            exists|d: Duration|
                #[trigger] slow_log_records(
                    old(self).slow_query_log_view(),
                    final(self).slow_query_log_view(),
                    command@,
                    args@,
                    d,
                    None,
                ),
    {
        let d = instant_elapsed(start);
        self.slow_query_log.record(command, args, d, None);
        proof {
            assert(slow_log_records(old(self).slow_query_log_view(), self.slow_query_log_view(), command@, args@, d, None));
        }
    }

    /// Records a command with the client's address.
    pub fn record_command_with_client(
        &mut self,
        command: &str,
        args: &[String],
        start: &Instant,
        client_addr: Option<String>,
    )
        ensures
            final(self).spec_level() == old(self).spec_level(),
            exists|d: Duration|
                #[trigger] slow_log_records(
                    old(self).slow_query_log_view(),
                    final(self).slow_query_log_view(),
                    command@,
                    args@,
                    d,
                    client_addr,
                ),
    {
        let d = instant_elapsed(start);
        let ghost client = client_addr;
        self.slow_query_log.record(command, args, d, client_addr);
        proof {
            assert(slow_log_records(old(self).slow_query_log_view(), self.slow_query_log_view(), command@, args@, d, client));
        }
    }
}

} // verus!
