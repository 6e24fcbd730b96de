use vstd::prelude::*;

verus! {

/// Severity of a log event, from least to most important.
#[derive(Clone, Copy, Debug, PartialEq, Eq, Structural)]
pub enum Level {
    Trace,
    Debug,
    Info,
    Warn,
    Error,
}

/// Upper-case name of a level, as written in records and console lines.
pub open spec fn level_text(level: Level) -> Seq<char> {
    match level {
        Level::Trace => seq!['T', 'R', 'A', 'C', 'E'],
        Level::Debug => seq!['D', 'E', 'B', 'U', 'G'],
        Level::Info => seq!['I', 'N', 'F', 'O'],
        Level::Warn => seq!['W', 'A', 'R', 'N'],
        Level::Error => seq!['E', 'R', 'R', 'O', 'R'],
    }
}

/// Relies on `log::Level::as_str`, which looks the name up in the table
/// `["OFF", "ERROR", "WARN", "INFO", "DEBUG", "TRACE"]` by discriminant.
#[verifier::external_body]
pub(crate) fn level_name(level: Level) -> (r: &'static str)
    ensures
        r@ == level_text(level),
{
    let l = match level {
        Level::Trace => log::Level::Trace,
        Level::Debug => log::Level::Debug,
        Level::Info => log::Level::Info,
        Level::Warn => log::Level::Warn,
        Level::Error => log::Level::Error,
    };
    l.as_str()
}

} // verus!
