use lance_engines::latency_log::{latency_log_path, LatencyLog};

#[test]
fn nothing_is_recorded_before_the_log_starts() {
    let mut log = LatencyLog::new();
    log.record("COUNT", 10);
    assert_eq!(log.csv_lines(), vec!["command,num_queries,avg_us,p50_us,p90_us,p99_us,max_us".to_string()]);
}

#[test]
fn rows_come_in_name_order() {
    let mut log = LatencyLog::new();
    log.activate();
    log.record("TOP_10", 5);
    log.record("COUNT", 10);
    log.record("COUNT", 20);
    log.record("COUNT", 30);
    log.record("TOP_10_COUNT", 7);
    log.record("TOP_10", 15);
    assert_eq!(
        log.csv_lines(),
        vec![
            "command,num_queries,avg_us,p50_us,p90_us,p99_us,max_us".to_string(),
            "COUNT,3,20,20,30,30,30".to_string(),
            "TOP_10,2,10,15,15,15,15".to_string(),
            "TOP_10_COUNT,1,7,7,7,7,7".to_string(),
        ]
    );
}

#[test]
fn names_sort_by_code_point_like_strings() {
    let names = ["b", "a", "ab", "Z", "é", "", "aa", "a"];
    let mut log = LatencyLog::new();
    log.activate();
    for n in names {
        log.record(n, 1);
    }
    let mut expected: Vec<&str> = names.to_vec();
    expected.sort();
    expected.dedup();
    let got: Vec<String> = log.csv_lines()[1..].iter().map(|l| l.split(',').next().unwrap().to_string()).collect();
    assert_eq!(got, expected);
}

#[test]
fn log_path_setting() {
    assert_eq!(latency_log_path(None), None);
    assert_eq!(latency_log_path(Some("  ".to_string())), None);
    assert_eq!(latency_log_path(Some(String::new())), None);
    assert_eq!(latency_log_path(Some(" log.csv".to_string())), Some(" log.csv".to_string()));
}
