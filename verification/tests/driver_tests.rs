use lance_engines::command::{Command, Reply};
use lance_engines::driver::{Action, QueryDriver};
use lance_engines::latency_log::csv_header_text;

#[test]
fn lines_become_actions() {
    let mut d = QueryDriver::new(false, false);
    assert_eq!(d.take_line(""), Action::Skip);
    assert_eq!(d.take_line("COUNT"), Action::Answer(Reply::Unsupported));
    assert_eq!(d.take_line("BOGUS\tq"), Action::Unsupported);
    assert_eq!(d.take_line("PYLANCE_LOG_START\tx"), Action::Unsupported);
    assert_eq!(
        d.take_line("TOP_5\thello world"),
        Action::Run { command: Command::TopK(5), name: "TOP_5".to_string(), query: "hello world".to_string() }
    );
}

#[test]
fn log_start_is_answered_ok() {
    let mut d = QueryDriver::new(true, true);
    assert_eq!(d.take_line("PYLANCE_LOG_START\t"), Action::Answer(Reply::LogStarted));
    let mut quiet = QueryDriver::new(true, false);
    assert_eq!(quiet.take_line("PYLANCE_LOG_START\t"), Action::Answer(Reply::LogStarted));
    assert_eq!(quiet.query_done(Command::Count, "COUNT", 3, 10), Reply::Count(3));
    assert_eq!(quiet.log().csv_lines().len(), 1);
}

#[test]
fn replies_to_queries() {
    let mut d = QueryDriver::new(false, false);
    assert_eq!(d.query_done(Command::Count, "COUNT", 42, 0), Reply::Count(42));
    assert_eq!(d.query_done(Command::TopK(3), "TOP_3", 0, 0), Reply::TopKDone);
    assert_eq!(d.query_done(Command::TopKCount(3), "TOP_3_COUNT", 7, 0), Reply::Count(7));
}

#[test]
fn latencies_are_recorded_once_the_log_starts() {
    let mut d = QueryDriver::new(true, true);
    d.query_done(Command::Count, "COUNT", 1, 500);
    assert_eq!(d.log().csv_lines().len(), 1);
    d.take_line("PYLANCE_LOG_START\t");
    d.query_done(Command::Count, "COUNT", 1, 100);
    d.query_done(Command::Count, "COUNT", 1, 300);
    d.query_done(Command::TopK(2), "TOP_2", 0, 50);
    let lines = d.log().csv_lines();
    assert_eq!(lines[0], csv_header_text());
    assert_eq!(lines[1], "COUNT,2,200,300,300,300,300");
    assert_eq!(lines[2], "TOP_2,1,50,50,50,50,50");
}

#[test]
fn header_text() {
    assert_eq!(csv_header_text(), "command,num_queries,avg_us,p50_us,p90_us,p99_us,max_us");
}
