//! The query-driver protocol: request lines of the form
//! `COMMAND<TAB>query`, the commands `COUNT`, `TOP_<k>` and
//! `TOP_<k>_COUNT`, and the text of the replies.

use vstd::prelude::*;
use crate::decimal::{
    decimal, format_u64, is_digit, lemma_decimal_digits, lemma_parse_decimal_roundtrip, parse_usize,
    parse_usize_spec,
};
use crate::text::{
    chars_equal, chars_of, has_prefix, has_suffix, lemma_split_once_at, split_once, split_once_spec,
};

verus! {

/// A query command.
#[derive(Debug, Clone, Copy, PartialEq, Eq)]
pub enum Command {
    /// Count every document that matches.
    Count,
    /// Run the query for its top `k` documents.
    TopK(usize),
    /// Count the documents that match (`k` is not used for counting).
    TopKCount(usize),
}

/// The command that the text `s` names: `COUNT`, `TOP_<k>` or
/// `TOP_<k>_COUNT`, where `<k>` is read as `str::parse::<usize>` reads it.
#[verifier::opaque]
pub open spec fn command_spec(s: Seq<char>) -> Option<Command> {
    if s == "COUNT"@ {
        Some(Command::Count)
    } else if s.len() >= "TOP_"@.len() && s.take("TOP_"@.len() as int) == "TOP_"@ {
        let rest = s.skip("TOP_"@.len() as int);
        let suffix = "_COUNT"@;
        if rest.len() >= suffix.len() && rest.skip(rest.len() - suffix.len()) == suffix {
            match parse_usize_spec(rest.take(rest.len() - suffix.len())) {
                Some(k) => Some(Command::TopKCount(k)),
                None => None,
            }
        } else {
            match parse_usize_spec(rest) {
                Some(k) => Some(Command::TopK(k)),
                None => None,
            }
        }
    } else {
        None
    }
}

/// Reads a command name.
pub fn parse_command(input: &str) -> (r: Option<Command>)
    ensures
        r == command_spec(input@),
{
    reveal(command_spec);
    let mut s = chars_of(input);
    let count_word = chars_of("COUNT");
    if chars_equal(&s, &count_word) {
        return Some(Command::Count);
    }
    let top = chars_of("TOP_");
    if has_prefix(&s, &top) {
        let rest: Vec<char> = s.split_off(top.len());
        assert(rest@ == input@.skip("TOP_"@.len() as int));
        let suffix = chars_of("_COUNT");
        if has_suffix(&rest, &suffix) {
            let mut number = rest.clone();
            number.truncate(rest.len() - suffix.len());
            assert(number@ == rest@.take(rest@.len() - suffix@.len()));
            return match parse_usize(&number) {
                Some(k) => Some(Command::TopKCount(k)),
                None => None,
            };
        }
        return match parse_usize(&rest) {
            Some(k) => Some(Command::TopK(k)),
            None => None,
        };
    }
    None
}

/// What a driver does with one input line.
#[derive(Debug, Clone, PartialEq, Eq)]
pub enum Request {
    /// An empty line: nothing is answered.
    Skip,
    /// A line without a tab between a command name and a query.
    Malformed,
    /// A line whose command name is not known.
    Unsupported,
    /// The line that starts latency logging.
    LogStart,
    /// A command to run on a query; `name` is the command's own text.
    Run { command: Command, name: String, query: String },
}

/// The kind of a request.
pub enum RequestKind {
    Skip,
    Malformed,
    LogStart,
    Run,
    Unsupported,
}

/// The kind of `r`.
pub open spec fn kind_of(r: Request) -> RequestKind {
    match r {
        Request::Skip => RequestKind::Skip,
        Request::Malformed => RequestKind::Malformed,
        Request::LogStart => RequestKind::LogStart,
        Request::Run { .. } => RequestKind::Run,
        Request::Unsupported => RequestKind::Unsupported,
    }
}

/// What a driver does with a line, given whether it knows the latency-log
/// start: an empty line is skipped; one without a tab is malformed; else
/// the part before the first tab names the latency-log start (when the
/// driver knows it), a command, or nothing known.
pub open spec fn request_kind(line: Seq<char>, log_control: bool) -> RequestKind {
    if line.len() == 0 {
        RequestKind::Skip
    } else {
        match split_once_spec(line, '\t') {
            None => RequestKind::Malformed,
            Some((name, _query)) => if log_control && name == "PYLANCE_LOG_START"@ {
                RequestKind::LogStart
            } else if command_spec(name) is Some {
                RequestKind::Run
            } else {
                RequestKind::Unsupported
            },
        }
    }
}

/// What a line asks for depends only on its part before the first tab:
/// whatever query follows the tab, the line is taken as the name followed by
/// a tab alone would be. With the latency-log start known, the name
/// `PYLANCE_LOG_START` starts the log whatever follows it; a known command
/// name always runs its command, and a name that no command has is always
/// unsupported.
pub proof fn lemma_kind_by_name(name: Seq<char>, query: Seq<char>, log_control: bool)
    requires
        !name.contains('\t'),
    ensures
        request_kind(name + seq!['\t'] + query, log_control) == request_kind(
            name + seq!['\t'],
            log_control,
        ),
        log_control && name == "PYLANCE_LOG_START"@ ==> request_kind(
            name + seq!['\t'] + query,
            log_control,
        ) is LogStart,
        name != "PYLANCE_LOG_START"@ && command_spec(name) is Some ==> request_kind(
            name + seq!['\t'] + query,
            log_control,
        ) is Run,
        !(log_control && name == "PYLANCE_LOG_START"@) && command_spec(name) is None
            ==> request_kind(name + seq!['\t'] + query, log_control) is Unsupported,
{
    lemma_split_once_at(name, '\t', query);
    lemma_split_once_at(name, '\t', Seq::empty());
    assert(name + seq!['\t'] + Seq::<char>::empty() == name + seq!['\t']);
    assert((name + seq!['\t'] + query).len() > 0);
    assert((name + seq!['\t']).len() > 0);
}

#[verifier::rlimit(40)]
fn classify(line: &str, log_control: bool) -> (r: Request)
    ensures
        kind_of(r) == request_kind(line@, log_control),
        r matches Request::Run { command, name, query } ==> split_once_spec(line@, '\t')
            == Some((name@, query@)) && command_spec(name@) == Some(command),
{
    let s = chars_of(line);
    if s.len() == 0 {
        return Request::Skip;
    }
    let split = split_once(&s, '\t');
    match split {
        None => Request::Malformed,
        Some((name, query)) => {
            let ghost parts = split_once_spec(line@, '\t');
            assert(parts == Some((name@, query@)));
            let name_chars = chars_of(name.as_str());
            let log_word = chars_of("PYLANCE_LOG_START");
            let is_log_start = log_control && chars_equal(&name_chars, &log_word);
            assert(is_log_start == (log_control && name@ == "PYLANCE_LOG_START"@));
            if is_log_start {
                Request::LogStart
            } else {
                let command = parse_command(name.as_str());
                match command {
                    Some(command) => Request::Run { command, name, query },
                    None => Request::Unsupported,
                }
            }
        },
    }
}

/// What a driver without latency logging does with one input line: empty
/// lines are skipped; a line is split at its first tab into a command name
/// and a query; a line without a tab is malformed; a command name that
/// `parse_command` does not know is unsupported. Both are answered
/// `UNSUPPORTED`.
pub fn parse_request(line: &str) -> (r: Request)
    ensures
        kind_of(r) == request_kind(line@, false),
        !(r is LogStart),
        r matches Request::Run { command, name, query } ==> split_once_spec(line@, '\t')
            == Some((name@, query@)) && command_spec(name@) == Some(command),
{
    classify(line, false)
}

/// As `parse_request`, for a driver with latency logging, where the command
/// name `PYLANCE_LOG_START` starts the log.
pub fn parse_logged_request(line: &str) -> (r: Request)
    ensures
        kind_of(r) == request_kind(line@, true),
        r matches Request::Run { command, name, query } ==> split_once_spec(line@, '\t')
            == Some((name@, query@)) && command_spec(name@) == Some(command),
{
    classify(line, true)
}

/// A driver's answer to one request.
#[derive(Debug, Clone, Copy, PartialEq, Eq)]
pub enum Reply {
    /// The number of matching documents.
    Count(usize),
    /// A top-k query ran.
    TopKDone,
    /// The request was not understood.
    Unsupported,
    /// Latency logging started.
    LogStarted,
}

/// The text of a reply line.
pub open spec fn reply_spec(r: Reply) -> Seq<char> {
    match r {
        Reply::Count(n) => decimal(n as nat),
        Reply::TopKDone => "1"@,
        Reply::Unsupported => "UNSUPPORTED"@,
        Reply::LogStarted => "OK"@,
    }
}

impl Reply {
    /// The text of the reply line, without its line end.
    pub fn text(&self) -> (s: String)
        ensures
            s@ == reply_spec(*self),
    {
        match self {
            Reply::Count(n) => format_u64(*n as u64),
            Reply::TopKDone => "1".to_string(),
            Reply::Unsupported => "UNSUPPORTED".to_string(),
            Reply::LogStarted => "OK".to_string(),
        }
    }
}


/// Each command is read back from its own name: `COUNT`, and `TOP_` followed
/// by the decimal text of `k`, with or without `_COUNT` after it.
pub proof fn lemma_command_names(k: usize)
    ensures
        command_spec("COUNT"@) == Some(Command::Count),
        command_spec("TOP_"@ + decimal(k as nat)) == Some(Command::TopK(k)),
        command_spec("TOP_"@ + decimal(k as nat) + "_COUNT"@) == Some(Command::TopKCount(k)),
{
    reveal(command_spec);
    reveal_strlit("COUNT");
    reveal_strlit("TOP_");
    reveal_strlit("_COUNT");
    let d = decimal(k as nat);
    lemma_decimal_digits(k as nat);
    lemma_parse_decimal_roundtrip(k);
    let top = "TOP_"@;
    let suffix = "_COUNT"@;
    let s1 = top + d;
    assert(s1[0] == 'T');
    assert(s1 != "COUNT"@);
    assert(s1.take(4) == top);
    assert(s1.skip(4) == d);
    if d.len() >= suffix.len() {
        assert(is_digit(d[d.len() - 1]));
        assert(d.skip(d.len() - suffix.len())[5] == d[d.len() - 1]);
        assert(d.skip(d.len() - suffix.len()) != suffix);
    }
    let s2 = top + d + suffix;
    assert(s2[0] == 'T');
    assert(s2 != "COUNT"@);
    assert(s2.take(4) == top);
    let rest = s2.skip(4);
    assert(rest == d + suffix);
    assert(rest.skip(rest.len() - suffix.len()) == suffix);
    assert(rest.take(rest.len() - suffix.len()) == d);
}

} // verus!
