use vstd::prelude::*;
use crate::text::{append_chars, chars_of, string_of};

verus! {

/// Log levels, from the most to the least verbose.
#[derive(Clone, Copy, Debug, PartialEq, Eq, Structural)]
pub enum Level {
    Debug,
    Info,
    Warn,
    Error,
}

impl Level {
    pub open spec fn rank(self) -> nat {
        match self {
            Level::Debug => 0,
            Level::Info => 1,
            Level::Warn => 2,
            Level::Error => 3,
        }
    }

    pub open spec fn name_spec(self) -> Seq<char> {
        match self {
            Level::Debug => "DEBUG"@,
            Level::Info => "INFO"@,
            Level::Warn => "WARN"@,
            Level::Error => "ERROR"@,
        }
    }

    pub open spec fn parse_spec(s: Seq<char>) -> Option<Level> {
        if s == "debug"@ {
            Some(Level::Debug)
        } else if s == "info"@ {
            Some(Level::Info)
        } else if s == "warn"@ {
            Some(Level::Warn)
        } else if s == "error"@ {
            Some(Level::Error)
        } else {
            None
        }
    }

    /// The level's name as log lines show it.
    pub fn to_str(&self) -> (r: &'static str)
        ensures
            r@ == self.name_spec(),
    {
        match self {
            Level::Debug => "DEBUG",
            Level::Info => "INFO",
            Level::Warn => "WARN",
            Level::Error => "ERROR",
        }
    }

    /// Reads a level as a configuration writes it: `debug`, `info`, `warn`
    /// or `error`.
    pub fn parse(s: &str) -> (r: Option<Level>)
        ensures
            r == Self::parse_spec(s@),
    {
        if crate::text::str_eq(s, "debug") {
            Some(Level::Debug)
        } else if crate::text::str_eq(s, "info") {
            Some(Level::Info)
        } else if crate::text::str_eq(s, "warn") {
            Some(Level::Warn)
        } else if crate::text::str_eq(s, "error") {
            Some(Level::Error)
        } else {
            None
        }
    }
}

/// The logging settings, made once at startup and handed to what logs.
pub struct Logger {
    pub level: Level,
}

/// Whether a message at `level` passes a logger set to `min`.
pub fn should_log(min: Level, level: Level) -> (r: bool)
    ensures
        r == (level.rank() >= min.rank()),
{
    let a: u8 = match level {
        Level::Debug => 0,
        Level::Info => 1,
        Level::Warn => 2,
        Level::Error => 3,
    };
    let b: u8 = match min {
        Level::Debug => 0,
        Level::Info => 1,
        Level::Warn => 2,
        Level::Error => 3,
    };
    a >= b
}

/// A log line before colouring: `[LEVEL] timestamp : message`.
pub open spec fn line_spec(level: Level, timestamp: Seq<char>, msg: Seq<char>) -> Seq<char> {
    seq!['['] + level.name_spec() + "] "@ + timestamp + " : "@ + msg
}

pub fn format_line(level: Level, timestamp: &str, msg: &str) -> (r: String)
    ensures
        r@ == line_spec(level, timestamp@, msg@),
{
    let mut out: Vec<char> = Vec::new();
    out.push('[');
    append_chars(&mut out, chars_of(level.to_str()).as_slice());
    append_chars(&mut out, chars_of("] ").as_slice());
    append_chars(&mut out, chars_of(timestamp).as_slice());
    append_chars(&mut out, chars_of(" : ").as_slice());
    append_chars(&mut out, chars_of(msg).as_slice());
    string_of(out.as_slice())
}

/// The escape sequence that ends a colour.
pub open spec fn reset_seq() -> Seq<char> {
    seq!['\x1b', '[', '0', 'm']
}

/// Whether `s` holds the reset sequence.
pub open spec fn has_reset(s: Seq<char>) -> bool {
    exists|i: int| 0 <= i <= s.len() - 4 && #[trigger] s.subrange(i, i + 4) == reset_seq()
}

/// What colouring `s` with the colour `code` can give: `s` itself where
/// colouring is off, else `s` between the colour's escape sequence and the
/// reset one (when `s` holds a reset itself, the colour is repeated after it).
pub open spec fn painted(s: Seq<char>, code: Seq<char>, r: Seq<char>) -> bool {
    r == s || r == seq!['\x1b', '['] + code + seq!['m'] + s + reset_seq() || has_reset(s)
}

/// Relies on colored's `Colorize::green` and the `Display` of `ColoredString`.
#[verifier::external_body]
fn green(s: &str) -> (r: String)
    ensures
        painted(s@, "32"@, r@),
{
    colored::Colorize::green(s).to_string()
}

/// Relies on colored's `Colorize::yellow` and the `Display` of `ColoredString`.
#[verifier::external_body]
fn yellow(s: &str) -> (r: String)
    ensures
        painted(s@, "33"@, r@),
{
    colored::Colorize::yellow(s).to_string()
}

/// Relies on colored's `Colorize::red` and the `Display` of `ColoredString`.
#[verifier::external_body]
fn red(s: &str) -> (r: String)
    ensures
        painted(s@, "31"@, r@),
{
    colored::Colorize::red(s).to_string()
}

/// Relies on chrono's `Local::now` and `DateTime::format`: the local time now
/// as `%Y-%m-%d %H:%M:%S`. Nothing is promised of it.
#[verifier::external_body]
fn local_timestamp() -> (r: String) {
    chrono::Local::now().format("%Y-%m-%d %H:%M:%S").to_string()
}

/// The colour code of a level's lines; debug lines are not coloured.
pub open spec fn color_code(level: Level) -> Seq<char> {
    match level {
        Level::Debug => Seq::empty(),
        Level::Info => "32"@,
        Level::Warn => "33"@,
        Level::Error => "31"@,
    }
}

/// A log line at `level` stamped with the local time now: green for info,
/// yellow for warnings, red for errors.
pub fn format(level: Level, msg: &str) -> (r: String)
    ensures
        exists|ts: Seq<char>|
            {
                let line = #[trigger] line_spec(level, ts, msg@);
                if level == Level::Debug {
                    r@ == line
                } else {
                    painted(line, color_code(level), r@)
                }
            },
{
    let timestamp = local_timestamp();
    let line = format_line(level, timestamp.as_str(), msg);
    let r = match level {
        Level::Debug => line,
        Level::Info => green(line.as_str()),
        Level::Warn => yellow(line.as_str()),
        Level::Error => red(line.as_str()),
    };
    assert(line@ == line_spec(level, timestamp@, msg@));
    r
}

/// The line to write for `msg` at `level`, or `None` where the logger drops it.
pub fn log(logger: &Logger, level: Level, msg: &str) -> (r: Option<String>)
    ensures
        r is Some <==> level.rank() >= logger.level.rank(),
        r matches Some(s) ==> exists|ts: Seq<char>|
            {
                let line = #[trigger] line_spec(level, ts, msg@);
                if level == Level::Debug {
                    s@ == line
                } else {
                    painted(line, color_code(level), s@)
                }
            },
{
    if should_log(logger.level, level) {
        Some(format(level, msg))
    } else {
        None
    }
}

/// The info line for `msg`, where the logger keeps it.
pub fn info(logger: &Logger, msg: &str) -> (r: Option<String>)
    ensures
        r is Some <==> Level::Info.rank() >= logger.level.rank(),
        r matches Some(s) ==> exists|ts: Seq<char>|
            painted(#[trigger] line_spec(Level::Info, ts, msg@), "32"@, s@),
{
    log(logger, Level::Info, msg)
}

/// The warning line for `msg`, where the logger keeps it.
pub fn warn(logger: &Logger, msg: &str) -> (r: Option<String>)
    ensures
        r is Some <==> Level::Warn.rank() >= logger.level.rank(),
        r matches Some(s) ==> exists|ts: Seq<char>|
            painted(#[trigger] line_spec(Level::Warn, ts, msg@), "33"@, s@),
{
    log(logger, Level::Warn, msg)
}

/// The error line for `msg`, where the logger keeps it.
pub fn error(logger: &Logger, msg: &str) -> (r: Option<String>)
    ensures
        r is Some,
        r matches Some(s) ==> exists|ts: Seq<char>|
            painted(#[trigger] line_spec(Level::Error, ts, msg@), "31"@, s@),
{
    log(logger, Level::Error, msg)
}

/// The debug line for `msg`, where the logger keeps it.
pub fn debug(logger: &Logger, msg: &str) -> (r: Option<String>)
    ensures
        r is Some <==> logger.level == Level::Debug,
        r matches Some(s) ==> exists|ts: Seq<char>| s@ == #[trigger] line_spec(Level::Debug, ts, msg@),
{
    log(logger, Level::Debug, msg)
}

} // verus!
