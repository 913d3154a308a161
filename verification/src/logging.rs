//! The session log: events are kept in a buffer and written out in batches.
//!
//! Nothing here reads the clock or the disk. The caller stamps each event,
//! hands over what the log file holds, and writes back what is to be written.

use vstd::prelude::*;
use crate::paths::{base_name, file_name, join, joined};
use crate::sorting::{order_of, sort, sorted, Order};
use crate::text::{appended, chars_of, ends_with, has_suffix};

verus! {

/// One entry of the log.
#[derive(Debug)]
pub struct LogEvent {
    /// When the event happened, as it is to be written.
    pub timestamp: String,
    pub level: String,
    pub category: String,
    pub message: String,
    /// Further data about the event, as JSON text.
    pub context: Option<String>,
}

/// The log of a session: the file it goes to, and the events not yet written.
pub struct FileLogger {
    log_file_path: String,
    buffer: Vec<LogEvent>,
}

/// A file found in the directory of the logs.
#[derive(Debug)]
pub struct LogFile {
    pub path: String,
    /// The time of the last change in seconds since the epoch, where it
    /// could be read.
    pub modified: Option<u64>,
}

/// With this many events in the buffer it is time to write them out.
pub const FLUSH_THRESHOLD: usize = 50;

/// Logs older than this many seconds are removed.
pub const RETENTION_SECS: u64 = 2592000;

/// The line that is written for `event`.
pub open spec fn event_line(event: LogEvent) -> Seq<char> {
    "["@ + event.timestamp@ + "] ["@ + event.level@ + "] ["@ + event.category@ + "] "@
        + event.message@ + match event.context {
        Some(context) => " - Context: "@ + context@,
        None => Seq::empty(),
    }
}

/// The lines for `events`, one under the other.
pub open spec fn event_lines(events: Seq<LogEvent>) -> Seq<char>
    decreases events.len(),
{
    if events.len() == 0 {
        Seq::empty()
    } else if events.len() == 1 {
        event_line(events[0])
    } else {
        event_lines(events.drop_last()) + "\n"@ + event_line(events.last())
    }
}

/// What the log file holds once `events` are written under `file_content`.
pub open spec fn with_events(file_content: Seq<char>, events: Seq<LogEvent>) -> Seq<char> {
    if file_content.len() == 0 {
        event_lines(events)
    } else {
        file_content + "\n"@ + event_lines(events)
    }
}

/// The name of a log file: it ends in `.log` and has something before that.
pub open spec fn is_log_name(name: Seq<char>) -> bool {
    name.len() > 4 && ends_with(name, seq!['.', 'l', 'o', 'g'])
}

/// The log files among `files`, in the order of `files`.
pub open spec fn log_files(files: Seq<LogFile>) -> Seq<LogFile>
    decreases files.len(),
{
    if files.len() == 0 {
        Seq::empty()
    } else if is_log_name(base_name(files.last().path@)) {
        log_files(files.drop_last()).push(files.last())
    } else {
        log_files(files.drop_last())
    }
}

/// The time of the last change of `file`, or the epoch where it is not known.
pub open spec fn changed(file: LogFile) -> u64 {
    match file.modified {
        Some(t) => t,
        None => 0,
    }
}

/// The time before which a log is old at the time `now`.
pub open spec fn cutoff(now: u64) -> int {
    if now >= RETENTION_SECS {
        now - RETENTION_SECS
    } else {
        0
    }
}

/// The paths of the log files among `files` that were last changed before
/// the cutoff, in the order of `files`.
pub open spec fn old_logs(files: Seq<LogFile>, now: u64) -> Seq<String>
    decreases files.len(),
{
    if files.len() == 0 {
        Seq::empty()
    } else {
        let f = files.last();
        if is_log_name(base_name(f.path@)) && f.modified is Some && f.modified->0 < cutoff(now) {
            old_logs(files.drop_last(), now).push(f.path)
        } else {
            old_logs(files.drop_last(), now)
        }
    }
}

/// The order of log files by time of change, newest first.
pub struct NewestLogFirst;

impl Order<LogFile> for NewestLogFirst {
    open spec fn le(a: LogFile, b: LogFile) -> bool {
        changed(a) >= changed(b)
    }

    proof fn lemma_total_preorder() {
    }

    fn test(a: &LogFile, b: &LogFile) -> (r: bool) {
        let x: u64 = match a.modified {
            Some(t) => t,
            None => 0,
        };
        let y: u64 = match b.modified {
            Some(t) => t,
            None => 0,
        };
        x >= y
    }
}

fn log_name(path: &str) -> (r: bool)
    ensures
        r == is_log_name(base_name(path@)),
{
    let name = chars_of(file_name(path).as_str());
    let suffix: Vec<char> = vec!['.', 'l', 'o', 'g'];
    assert(suffix@ == seq!['.', 'l', 'o', 'g']);
    name.len() > 4 && has_suffix(&name, &suffix)
}

fn push_event_line(out: &mut String, event: &LogEvent)
    ensures
        final(out)@ == old(out)@ + event_line(*event),
{
    let ghost start = out@;
    out.append("[");
    out.append(event.timestamp.as_str());
    out.append("] [");
    out.append(event.level.as_str());
    out.append("] [");
    out.append(event.category.as_str());
    out.append("] ");
    out.append(event.message.as_str());
    let ghost head = "["@ + event.timestamp@ + "] ["@ + event.level@ + "] ["@ + event.category@
        + "] "@ + event.message@;
    assert(out@ == start + head);
    match &event.context {
        Some(context) => {
            out.append(" - Context: ");
            out.append(context.as_str());
            assert(out@ == start + (head + (" - Context: "@ + context@)));
        },
        None => {
            assert(out@ == start + (head + Seq::<char>::empty()));
        },
    }
}

impl FileLogger {
    /// The path of the file this log goes to.
    pub closed spec fn path(&self) -> Seq<char> {
        self.log_file_path@
    }

    /// The events that are not yet written.
    pub closed spec fn pending(&self) -> Seq<LogEvent> {
        self.buffer@
    }

    /// A log that goes to `log_file_path`, with nothing to write yet.
    pub fn new(log_file_path: String) -> (r: Self)
        ensures
            r.path() == log_file_path@,
            r.pending().len() == 0,
    {
        FileLogger { log_file_path, buffer: Vec::new() }
    }

    /// The log of a session that begins: it goes to the file `file_stamp.log`
    /// in `logs_dir` and holds one event, which tells of the start.
    pub fn init(logs_dir: &str, file_stamp: &str, started: LogEvent) -> (r: Self)
        ensures
            r.path() == joined(logs_dir@, file_stamp@ + ".log"@),
            r.pending() == seq![started],
    {
        let name = appended(file_stamp, ".log");
        let mut logger = FileLogger::new(join(logs_dir, name.as_str()));
        logger.record_event(started);
        assert(logger.pending() == seq![started]);
        logger
    }

    /// The directory of the logs of the user whose home directory is `home`.
    pub fn get_logs_dir(home: &str) -> (r: String)
        ensures
            r@ == joined(joined(home@, ".allein"@), "logs"@),
    {
        let dir = join(home, ".allein");
        join(dir.as_str(), "logs")
    }

    /// The path of the file this log goes to.
    pub fn log_file_path(&self) -> (r: &str)
        ensures
            r@ == self.path(),
    {
        self.log_file_path.as_str()
    }

    /// The number of events that are not yet written.
    pub fn buffered(&self) -> (r: usize)
        ensures
            r == self.pending().len(),
    {
        self.buffer.len()
    }

    /// Puts `event` behind the events that are not yet written.
    pub fn record_event(&mut self, event: LogEvent)
        ensures
            final(self).pending() == old(self).pending().push(event),
            final(self).path() == old(self).path(),
    {
        self.buffer.push(event);
    }

    /// What the log file is to hold once the pending events are written under
    /// `file_content`, which it holds now; `None` where nothing is pending.
    /// The events stay pending until `mark_flushed` is called.
    pub fn flush_to_file(&self, file_content: &str) -> (r: Option<String>)
        ensures
            match r {
                Some(content) => self.pending().len() > 0 && content@ == with_events(
                    file_content@,
                    self.pending(),
                ),
                None => self.pending().len() == 0,
            },
    {
        if self.buffer.len() == 0 {
            return None;
        }
        let mut out = file_content.to_owned();
        if !file_content.is_empty() {
            out.append("\n");
        }
        let ghost start = out@;
        push_event_line(&mut out, &self.buffer[0]);
        let mut i: usize = 1;
        assert(self.buffer@.take(1).len() == 1);
        while i < self.buffer.len()
            invariant
                1 <= i <= self.buffer.len(),
                out@ == start + event_lines(self.buffer@.take(i as int)),
            decreases self.buffer.len() - i,
        {
            let ghost before = out@;
            out.append("\n");
            push_event_line(&mut out, &self.buffer[i]);
            proof {
                let upto = self.buffer@.take(i + 1);
                assert(upto.drop_last() == self.buffer@.take(i as int));
                assert(out@ == start + (event_lines(self.buffer@.take(i as int)) + "\n"@
                    + event_line(self.buffer@[i as int])));
            }
            i += 1;
        }
        proof {
            assert(self.buffer@.take(self.buffer.len() as int) == self.buffer@);
            if file_content@.len() == 0 {
                assert(start + event_lines(self.buffer@) == event_lines(self.buffer@));
            } else {
                assert(start == file_content@ + "\n"@);
            }
        }
        Some(out)
    }

    /// Forgets the pending events, after they were written.
    pub fn mark_flushed(&mut self)
        ensures
            final(self).pending().len() == 0,
            final(self).path() == old(self).path(),
    {
        self.buffer.clear();
    }

    /// The paths of the logs that are to be removed at the time `now`, given
    /// in seconds since the epoch: the log files among `files` that were last
    /// changed more than `RETENTION_SECS` before. A file whose time of change
    /// is not known stays.
    pub fn cleanup_old_logs(files: &Vec<LogFile>, now: u64) -> (r: Vec<String>)
        ensures
            r@ == old_logs(files@, now),
    {
        let limit: u64 = if now >= RETENTION_SECS {
            now - RETENTION_SECS
        } else {
            0
        };
        let mut out: Vec<String> = Vec::new();
        let mut i: usize = 0;
        assert(files@.take(0) == Seq::<LogFile>::empty());
        while i < files.len()
            invariant
                i <= files.len(),
                limit == cutoff(now),
                out@ == old_logs(files@.take(i as int), now),
            decreases files.len() - i,
        {
            proof {
                assert(files@.take(i + 1).drop_last() == files@.take(i as int));
            }
            let f = &files[i];
            if log_name(f.path.as_str()) {
                match f.modified {
                    Some(t) => {
                        if t < limit {
                            out.push(f.path.clone());
                        }
                    },
                    None => {},
                }
            }
            i += 1;
        }
        proof {
            assert(files@.take(files.len() as int) == files@);
        }
        out
    }

    /// The log files among `files`, newest first. A file whose time of change
    /// is not known counts as changed at the epoch.
    pub fn get_all_logs(files: Vec<LogFile>) -> (r: Vec<LogFile>)
        ensures
            r@ == sorted(log_files(files@), order_of::<LogFile, NewestLogFirst>()),
    {
        let mut logs: Vec<LogFile> = Vec::new();
        for f in it: files
            invariant
                it.seq() == files@,
                logs@ == log_files(it.seq().take(it.index())),
        {
            proof {
                assert(files@.take(it.index() + 1).drop_last() == files@.take(it.index()));
            }
            if log_name(f.path.as_str()) {
                logs.push(f);
            }
        }
        proof {
            assert(files@.take(files@.len() as int) == files@);
        }
        sort::<LogFile, NewestLogFirst>(logs)
    }
}

/// Puts an event behind the pending ones, and says whether it is time to
/// write them out: with `FLUSH_THRESHOLD` events pending it is.
pub fn log_event(
    logger: &mut FileLogger,
    timestamp: String,
    level: String,
    category: String,
    message: String,
    context: Option<String>,
) -> (flush_due: bool)
    ensures
        final(logger).pending() == old(logger).pending().push(
            LogEvent { timestamp, level, category, message, context },
        ),
        final(logger).path() == old(logger).path(),
        flush_due == (final(logger).pending().len() >= FLUSH_THRESHOLD),
{
    logger.record_event(LogEvent { timestamp, level, category, message, context });
    logger.buffered() >= FLUSH_THRESHOLD
}

/// What the log file is to hold once the pending events of `logger` are
/// written under `file_content`; `None` where nothing is pending.
pub fn flush_logs(logger: &FileLogger, file_content: &str) -> (r: Option<String>)
    ensures
        match r {
            Some(content) => logger.pending().len() > 0 && content@ == with_events(
                file_content@,
                logger.pending(),
            ),
            None => logger.pending().len() == 0,
        },
{
    logger.flush_to_file(file_content)
}

/// The path of the file the log goes to, where that file exists.
pub fn get_current_log_file(logger: &FileLogger, file_exists: bool) -> (r: Option<String>)
    ensures
        match r {
            Some(path) => file_exists && path@ == logger.path(),
            None => !file_exists,
        },
{
    if file_exists {
        Some(logger.log_file_path().to_owned())
    } else {
        None
    }
}

} // verus!
