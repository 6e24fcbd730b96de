use loggers::{CustomLogger, Level, LogEvent, Logger};

const STAMP: &str = "2024-05-01T12:34:56.789+02:00";

fn router_with(keys: &[(&str, &str)], fallback: Option<(&str, &str)>) -> Logger {
    let mut logger = Logger::new();
    for (key, path) in keys {
        logger.add_logger(CustomLogger::new(key, path));
    }
    if let Some((key, path)) = fallback {
        logger.set_fallback(CustomLogger::new(key, path));
    }
    logger
}

#[test]
fn test_log() {
    let mut logger = Logger::new();
    logger.add_logger(CustomLogger::new("test", "tests/output/system.log"));
    logger.set_fallback(CustomLogger::new("default", "tests/output/system.log"));

    let hello = LogEvent::new(Level::Info, "test", "Hello, world!");
    let out = logger.log(&hello);
    assert_eq!(out.len(), 1);
    assert_eq!(out[0].path, "tests/output/system.log");
    let v: serde_json::Value = serde_json::from_str(out[0].record.trim_end()).unwrap();
    assert_eq!(v["severity"], "INFO");
    assert_eq!(v["target"], "test");
    assert_eq!(v["message"], "Hello, world!");

    let other = LogEvent::new(Level::Debug, "loggers::tests", "Default");
    let out = logger.log(&other);
    assert_eq!(out.len(), 1);
    let v: serde_json::Value = serde_json::from_str(out[0].record.trim_end()).unwrap();
    assert_eq!(v["severity"], "DEBUG");
    assert_eq!(v["target"], "default");
    assert_eq!(v["message"], "Default");
}

#[test]
fn routing_reaches_matching_sinks_only() {
    let logger = router_with(&[("a", "a.log"), ("b", "b.log"), ("a", "a2.log")], None);
    let event = LogEvent::new(Level::Warn, "a", "m");
    assert_eq!(logger.route(&event), vec![0, 2]);
    let out = logger.log_at(&event, STAMP);
    let paths: Vec<&str> = out.iter().map(|d| d.path.as_str()).collect();
    assert_eq!(paths, vec!["a.log", "a2.log"]);
    let event_b = LogEvent::new(Level::Warn, "b", "m");
    assert_eq!(logger.route(&event_b), vec![1]);
}

#[test]
fn routing_is_exact_and_case_sensitive() {
    let logger = router_with(&[("app", "app.log"), ("app::db", "db.log")], None);
    assert!(logger.route(&LogEvent::new(Level::Info, "App", "x")).is_empty());
    assert!(logger.route(&LogEvent::new(Level::Info, "ap", "x")).is_empty());
    assert_eq!(logger.route(&LogEvent::new(Level::Info, "app::db", "x")), vec![1]);
}

#[test]
fn fan_out_to_two_sinks_with_one_key() {
    let logger = router_with(&[("k", "one.log"), ("k", "two.log")], Some(("f", "f.log")));
    let event = LogEvent::new(Level::Error, "k", "boom");
    let out = logger.log_at(&event, STAMP);
    assert_eq!(out.len(), 2);
    assert_eq!(out[0].path, "one.log");
    assert_eq!(out[1].path, "two.log");
    assert_eq!(out[0].record, out[1].record);
    assert_eq!(out[0].console, out[1].console);
}

#[test]
fn fallback_on_miss_writes_once() {
    let logger = router_with(&[("a", "a.log"), ("b", "b.log")], Some(("default", "d.log")));
    let event = LogEvent::new(Level::Trace, "zzz", "lost");
    let out = logger.log_at(&event, STAMP);
    assert_eq!(out.len(), 1);
    assert_eq!(out[0].path, "d.log");
    assert_eq!(
        out[0].record,
        format!(
            "{{\"severity\":\"TRACE\",\"timestamp\":\"{}\",\"target\":\"default\",\"message\":\"lost\"}}\n",
            STAMP
        )
    );
}

#[test]
fn fallback_not_used_on_match() {
    let logger = router_with(&[("a", "a.log")], Some(("a", "d.log")));
    let out = logger.log_at(&LogEvent::new(Level::Info, "a", "x"), STAMP);
    assert_eq!(out.len(), 1);
    assert_eq!(out[0].path, "a.log");
}

#[test]
fn no_fallback_no_match_drops_event() {
    let logger = router_with(&[("a", "a.log")], None);
    let out = logger.log_at(&LogEvent::new(Level::Info, "b", "x"), STAMP);
    assert!(out.is_empty());
    let empty = Logger::new();
    assert!(empty.log(&LogEvent::new(Level::Info, "b", "x")).is_empty());
}

#[test]
fn set_fallback_replaces_previous() {
    let mut logger = Logger::new();
    logger.set_fallback(CustomLogger::new("first", "first.log"));
    logger.set_fallback(CustomLogger::new("second", "second.log"));
    let out = logger.log_at(&LogEvent::new(Level::Info, "x", "y"), STAMP);
    assert_eq!(out.len(), 1);
    assert_eq!(out[0].path, "second.log");
}

#[test]
fn router_enabled_for_every_event() {
    let logger = Logger::new();
    assert!(logger.enabled(&LogEvent::new(Level::Trace, "", "")));
    assert!(logger.enabled(&LogEvent::new(Level::Error, "anything", "x")));
    logger.flush();
}

#[test]
fn sink_accepts_only_its_key() {
    let sink = CustomLogger::new("net", "out/net.log");
    assert_eq!(sink.target(), "net");
    assert_eq!(sink.filepath(), "out/net.log");
    assert!(sink.enabled(&LogEvent::new(Level::Info, "net", "x")));
    assert!(!sink.enabled(&LogEvent::new(Level::Info, "NET", "x")));
    assert!(sink.log(&LogEvent::new(Level::Info, "disk", "x"), STAMP).is_none());
    let d = sink.log(&LogEvent::new(Level::Info, "net", "up"), STAMP).unwrap();
    assert_eq!(d.console, format!("[INFO] net {} - up", STAMP));
    sink.flush();
}

#[test]
fn sink_write_uses_its_own_key() {
    let sink = CustomLogger::new("default", "d.log");
    let d = sink.write(&LogEvent::new(Level::Warn, "elsewhere", "hi"), STAMP);
    assert_eq!(d.path, "d.log");
    assert_eq!(d.console, format!("[WARN] default {} - hi", STAMP));
}

#[test]
fn log_stamps_with_current_local_time() {
    let logger = router_with(&[("t", "t.log")], None);
    let out = logger.log(&LogEvent::new(Level::Info, "t", "now"));
    assert_eq!(out.len(), 1);
    let v: serde_json::Value = serde_json::from_str(out[0].record.trim_end()).unwrap();
    let stamp = v["timestamp"].as_str().unwrap().to_string();
    let parsed = chrono::DateTime::parse_from_rfc3339(&stamp).unwrap();
    let age = chrono::Local::now().signed_duration_since(parsed);
    assert!(age.num_seconds().abs() < 60);
    let fraction = stamp.split('.').nth(1).unwrap();
    assert!(fraction[..3].chars().all(|c| c.is_ascii_digit()));
    assert!(!fraction[3..4].chars().all(|c| c.is_ascii_digit()));
    assert!(out[0].console.starts_with("[INFO] t "));
    assert!(out[0].console.ends_with(" - now"));
}
