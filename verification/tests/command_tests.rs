use lance_engines::command::{parse_command, parse_logged_request, parse_request, Command, Reply, Request};

#[test]
fn count_command() {
    assert_eq!(parse_command("COUNT"), Some(Command::Count));
    assert_eq!(parse_command("count"), None);
    assert_eq!(parse_command("COUNT "), None);
}

#[test]
fn top_k_commands() {
    assert_eq!(parse_command("TOP_10"), Some(Command::TopK(10)));
    assert_eq!(parse_command("TOP_+3"), Some(Command::TopK(3)));
    assert_eq!(parse_command("TOP_10_COUNT"), Some(Command::TopKCount(10)));
    assert_eq!(parse_command("TOP_0_COUNT"), Some(Command::TopKCount(0)));
}

#[test]
fn malformed_top_k_commands() {
    assert_eq!(parse_command("TOP_"), None);
    assert_eq!(parse_command("TOP_x"), None);
    assert_eq!(parse_command("TOP_-1"), None);
    assert_eq!(parse_command("TOP__COUNT"), None);
    assert_eq!(parse_command("TOP_x_COUNT"), None);
    assert_eq!(parse_command("TOP_99999999999999999999999"), None);
    assert_eq!(parse_command("TOP10"), None);
    assert_eq!(parse_command(""), None);
}

#[test]
fn requests_without_latency_log() {
    assert_eq!(parse_request(""), Request::Skip);
    assert_eq!(parse_request("COUNT hello"), Request::Malformed);
    assert_eq!(parse_request("NOPE\thello"), Request::Unsupported);
    assert_eq!(parse_request("PYLANCE_LOG_START\t"), Request::Unsupported);
    assert_eq!(
        parse_request("TOP_5\t\"hello world\""),
        Request::Run {
            command: Command::TopK(5),
            name: "TOP_5".to_string(),
            query: "\"hello world\"".to_string()
        }
    );
}

#[test]
fn requests_with_latency_log() {
    assert_eq!(parse_logged_request(""), Request::Skip);
    assert_eq!(parse_logged_request("PYLANCE_LOG_START\t"), Request::LogStart);
    assert_eq!(parse_logged_request("PYLANCE_LOG_START"), Request::Malformed);
    assert_eq!(
        parse_logged_request("COUNT\thello"),
        Request::Run { command: Command::Count, name: "COUNT".to_string(), query: "hello".to_string() }
    );
}

#[test]
fn reply_texts() {
    assert_eq!(Reply::Count(42).text(), "42");
    assert_eq!(Reply::Count(0).text(), "0");
    assert_eq!(Reply::TopKDone.text(), "1");
    assert_eq!(Reply::Unsupported.text(), "UNSUPPORTED");
    assert_eq!(Reply::LogStarted.text(), "OK");
}
