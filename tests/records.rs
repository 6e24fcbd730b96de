use loggers::{console_line, hex_digit, json_string, record_line, CustomLogger, Level, LogEvent};

const STAMP: &str = "2024-05-01T12:34:56.789Z";

#[test]
fn record_line_exact() {
    assert_eq!(
        record_line(Level::Info, STAMP, "test", "Hello, world!"),
        "{\"severity\":\"INFO\",\"timestamp\":\"2024-05-01T12:34:56.789Z\",\"target\":\"test\",\"message\":\"Hello, world!\"}\n"
    );
}

#[test]
fn console_line_exact() {
    assert_eq!(
        console_line(Level::Error, STAMP, "db", "disk \"full\""),
        "[ERROR] db 2024-05-01T12:34:56.789Z - disk \"full\""
    );
}

#[test]
fn level_names_are_upper_case() {
    let cases = [
        (Level::Trace, "TRACE"),
        (Level::Debug, "DEBUG"),
        (Level::Info, "INFO"),
        (Level::Warn, "WARN"),
        (Level::Error, "ERROR"),
    ];
    for (level, name) in cases {
        let line = record_line(level, STAMP, "t", "m");
        let v: serde_json::Value = serde_json::from_str(line.trim_end()).unwrap();
        assert_eq!(v["severity"], name);
        assert!(console_line(level, STAMP, "t", "m").starts_with(&format!("[{}] ", name)));
    }
}

#[test]
fn record_parses_as_json() {
    let line = record_line(Level::Info, STAMP, "test", "Hello, world!");
    let v: serde_json::Value = serde_json::from_str(line.trim_end()).unwrap();
    assert_eq!(v["severity"], "INFO");
    assert_eq!(v["timestamp"], STAMP);
    assert_eq!(v["target"], "test");
    assert_eq!(v["message"], "Hello, world!");
    assert_eq!(v.as_object().unwrap().len(), 4);
}

#[test]
fn json_string_escapes_specials() {
    assert_eq!(json_string("a\"b\\c"), "a\\\"b\\\\c");
    assert_eq!(json_string("l1\nl2\r\t"), "l1\\nl2\\r\\t");
    assert_eq!(json_string("\u{1}x\u{1f}"), "\\u0001x\\u001f");
    assert_eq!(json_string(""), "");
    assert_eq!(json_string("héllo ✓"), "héllo ✓");
}

#[test]
fn escaped_message_round_trips() {
    let message = "say \"hi\"\\ then\nnew line\tand \u{7} bell";
    let line = record_line(Level::Warn, STAMP, "q\"t", message);
    assert_eq!(line.matches('\n').count(), 1);
    assert!(line.ends_with('\n'));
    let v: serde_json::Value = serde_json::from_str(line.trim_end()).unwrap();
    assert_eq!(v["message"], message);
    assert_eq!(v["target"], "q\"t");
}

#[test]
fn hex_digits() {
    let all: String = (0..16).map(hex_digit).collect();
    assert_eq!(all, "0123456789abcdef");
}

#[test]
fn appended_records_read_back_in_order() {
    let sink = CustomLogger::new("seq", "seq.log");
    let mut file = String::new();
    let n = 5;
    for i in 0..n {
        let d = sink.write(&LogEvent::new(Level::Debug, "seq", &format!("msg {}\n", i)), STAMP);
        file.push_str(&d.record);
    }
    let lines: Vec<&str> = file.lines().collect();
    assert_eq!(lines.len(), n);
    assert_eq!(file.matches('\n').count(), n);
    for (i, line) in lines.iter().enumerate() {
        let v: serde_json::Value = serde_json::from_str(line).unwrap();
        assert_eq!(v["message"], format!("msg {}\n", i));
        assert_eq!(v["target"], "seq");
    }
}
