//! A query driver's decisions, one input line at a time: which reply each
//! request gets, when latency logging starts, and which latencies are
//! recorded. The driver's loop performs the queries and hands back what
//! they gave.

use vstd::prelude::*;
use crate::command::{
    command_spec, parse_logged_request, parse_request, reply_spec, Command, Reply, Request,
    RequestKind, request_kind,
};
use crate::decimal::decimal;
use crate::latency_log::{LatencyLog, LatencyLogState, record_entries};
use crate::text::split_once_spec;

verus! {

/// What the driver's loop does next for an input line.
#[derive(Debug, Clone, PartialEq, Eq)]
pub enum Action {
    /// Nothing is answered.
    Skip,
    /// `reply` is answered, and the line is done.
    Answer(Reply),
    /// `UNSUPPORTED` is answered for a command that is not known; what
    /// follows every query line still follows it.
    Unsupported,
    /// The query runs with `command`; `query_done` takes what it gave.
    /// `name` is the command's own text.
    Run { command: Command, name: String, query: String },
}

/// The state of a query driver: whether it knows the latency-log start,
/// whether it keeps a latency log, and that log.
pub struct DriverState {
    pub log_control: bool,
    pub logging: bool,
    pub log: LatencyLogState,
}

/// A query driver: decides what each input line asks for and keeps the
/// latency log.
pub struct QueryDriver {
    log_control: bool,
    logging: bool,
    log: LatencyLog,
}

impl View for QueryDriver {
    type V = DriverState;

    closed spec fn view(&self) -> DriverState {
        DriverState { log_control: self.log_control, logging: self.logging, log: self.log@ }
    }
}

/// The reply to a query that ran with `command` and gave `count` (a count
/// is not read for `TOP_<k>`, which answers `1`).
pub open spec fn query_reply(command: Command, count: usize) -> Reply {
    match command {
        Command::TopK(_) => Reply::TopKDone,
        _ => Reply::Count(count),
    }
}

/// A query that ran is answered by what it gave: the count itself, zero
/// included, for `COUNT` and `TOP_<k>_COUNT`, written as its decimal
/// digits, and `1` for `TOP_<k>`; a query that ran is never answered
/// `UNSUPPORTED`.
pub proof fn lemma_query_reply(k: usize, count: usize)
    ensures
        query_reply(Command::Count, count) == Reply::Count(count),
        query_reply(Command::TopKCount(k), count) == Reply::Count(count),
        query_reply(Command::TopK(k), count) == Reply::TopKDone,
        reply_spec(query_reply(Command::Count, count)) == decimal(count as nat),
        reply_spec(query_reply(Command::TopKCount(k), count)) == decimal(count as nat),
        reply_spec(query_reply(Command::TopK(k), count)) == "1"@,
        forall|c: Command, n: usize| query_reply(c, n) != Reply::Unsupported,
{
}

impl QueryDriver {
    /// A driver that knows the latency-log start line when `log_control`
    /// holds and keeps a latency log when `logging` holds; the log has not
    /// started and holds nothing.
    pub fn new(log_control: bool, logging: bool) -> (d: Self)
        ensures
            d@.log_control == log_control,
            d@.logging == logging,
            !d@.log.active,
            d@.log.entries.len() == 0,
    {
        QueryDriver { log_control, logging, log: LatencyLog::new() }
    }

    /// Decides what `line` asks for (see `request_kind`): an empty line is
    /// skipped; a line without a tab is answered `UNSUPPORTED`; the
    /// latency-log start starts the log, when the driver keeps one, and is
    /// answered `OK`; a known command runs its query; any other command is
    /// unsupported.
    pub fn take_line(&mut self, line: &str) -> (a: Action)
        ensures
            final(self)@.log_control == old(self)@.log_control,
            final(self)@.logging == old(self)@.logging,
            final(self)@.log.entries == old(self)@.log.entries,
            final(self)@.log.active == (old(self)@.log.active || (old(self)@.logging
                && request_kind(line@, old(self)@.log_control) is LogStart)),
            match request_kind(line@, old(self)@.log_control) {
                RequestKind::Skip => a is Skip,
                RequestKind::Malformed => a == Action::Answer(Reply::Unsupported),
                RequestKind::LogStart => a == Action::Answer(Reply::LogStarted),
                RequestKind::Unsupported => a is Unsupported,
                RequestKind::Run => a matches Action::Run { command, name, query } && split_once_spec(
                    line@,
                    '\t',
                ) == Some((name@, query@)) && command_spec(name@) == Some(command),
            },
    {
        let request = if self.log_control {
            parse_logged_request(line)
        } else {
            parse_request(line)
        };
        match request {
            Request::Skip => Action::Skip,
            Request::Malformed => Action::Answer(Reply::Unsupported),
            Request::Unsupported => Action::Unsupported,
            Request::LogStart => {
                if self.logging {
                    self.log.activate();
                }
                Action::Answer(Reply::LogStarted)
            },
            Request::Run { command, name, query } => Action::Run { command, name, query },
        }
    }

    /// Takes what a query gave: `count` (not read for `TOP_<k>`) and its
    /// latency in microseconds. Returns the reply (see `query_reply`) and
    /// records the latency under the command's `name` once the log has
    /// started.
    pub fn query_done(&mut self, command: Command, name: &str, count: usize, latency_us: u64) -> (r:
        Reply)
        ensures
            r == query_reply(command, count),
            final(self)@.log_control == old(self)@.log_control,
            final(self)@.logging == old(self)@.logging,
            final(self)@.log.active == old(self)@.log.active,
            final(self)@.log.entries == if old(self)@.log.active {
                record_entries(old(self)@.log.entries, name@, latency_us)
            } else {
                old(self)@.log.entries
            },
    {
        self.log.record(name, latency_us);
        match command {
            Command::TopK(_) => Reply::TopKDone,
            _ => Reply::Count(count),
        }
    }

    /// The latency log.
    pub fn log(&self) -> (l: &LatencyLog)
        ensures
            l@ == self@.log,
    {
        &self.log
    }
}

} // verus!
