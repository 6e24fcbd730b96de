use vstd::prelude::*;

use crate::format::{console_line, console_text, record_line, record_text};
use crate::level::Level;

verus! {

/// One log event as the host application hands it over: its severity, the
/// routing key (target) it was logged under, and its formatted message.
pub struct LogEvent {
    pub level: Level,
    pub target: String,
    pub message: String,
}

impl LogEvent {
    pub fn new(level: Level, target: &str, message: &str) -> (r: LogEvent)
        ensures
            r.level == level,
            r.target@ == target@,
            r.message@ == message@,
    {
        LogEvent { level, target: String::from_str(target), message: String::from_str(message) }
    }
}

/// What one sink writes for one event: the record appended to the file at
/// `path`, and the line printed on the console.
pub struct Delivery {
    pub path: String,
    pub record: String,
    pub console: String,
}

pub struct DeliveryView {
    pub path: Seq<char>,
    pub record: Seq<char>,
    pub console: Seq<char>,
}

impl View for Delivery {
    type V = DeliveryView;

    open spec fn view(&self) -> DeliveryView {
        DeliveryView { path: self.path@, record: self.record@, console: self.console@ }
    }
}

/// A sink as a value: the routing key it accepts and the file it appends to.
pub struct SinkView {
    pub target: Seq<char>,
    pub path: Seq<char>,
}

/// What the sink `s` writes for `event`, stamped with `timestamp`. The target
/// written is the sink's own key, not the event's.
pub open spec fn delivery_of(s: SinkView, event: &LogEvent, timestamp: Seq<char>) -> DeliveryView {
    DeliveryView {
        path: s.path,
        record: record_text(event.level, timestamp, s.target, event.message@),
        console: console_text(event.level, timestamp, s.target, event.message@),
    }
}

/// A sink bound to one routing key and one output file.
pub struct CustomLogger {
    target: String,
    filepath: String,
}

impl View for CustomLogger {
    type V = SinkView;

    closed spec fn view(&self) -> SinkView {
        SinkView { target: self.target@, path: self.filepath@ }
    }
}

impl CustomLogger {
    /// A sink for the key `target` writing to `filepath`. Preparing the file
    /// itself (its directories, an empty file) is the caller's part.
    pub fn new(target: &str, filepath: &str) -> (r: CustomLogger)
        ensures
            r@ == (SinkView { target: target@, path: filepath@ }),
    {
        CustomLogger { target: String::from_str(target), filepath: String::from_str(filepath) }
    }

    pub fn target(&self) -> (r: &str)
        ensures
            r@ == self@.target,
    {
        self.target.as_str()
    }

    pub fn filepath(&self) -> (r: &str)
        ensures
            r@ == self@.path,
    {
        self.filepath.as_str()
    }

    /// Whether this sink accepts `event`: its target equals the sink's key
    /// exactly.
    pub fn enabled(&self, event: &LogEvent) -> (r: bool)
        ensures
            r == (event.target@ == self@.target),
    {
        self.target == event.target
    }

    /// What this sink writes for `event`, whatever its target; the fallback
    /// path writes this way.
    pub fn write(&self, event: &LogEvent, timestamp: &str) -> (r: Delivery)
        ensures
            r@ == delivery_of(self@, event, timestamp@),
    {
        Delivery {
            path: self.filepath.clone(),
            record: record_line(event.level, timestamp, self.target.as_str(), event.message.as_str()),
            console: console_line(
                event.level,
                timestamp,
                self.target.as_str(),
                event.message.as_str(),
            ),
        }
    }

    /// What this sink writes for `event`: nothing where it does not accept it.
    pub fn log(&self, event: &LogEvent, timestamp: &str) -> (r: Option<Delivery>)
        ensures
            r is Some <==> event.target@ == self@.target,
            r matches Some(d) ==> d@ == delivery_of(self@, event, timestamp@),
    {
        if self.enabled(event) {
            Some(self.write(event, timestamp))
        } else {
            None
        }
    }

    /// A sink keeps nothing buffered between writes, so there is nothing to
    /// flush.
    pub fn flush(&self) {
    }
}

} // verus!
