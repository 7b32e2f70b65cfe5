use vstd::prelude::*;
use vstd::string::*;

use crate::config::text_view;

verus! {

/// How serious a log message is, from least to most.
#[derive(Debug, PartialEq, Eq, Clone, Copy, Structural)]
pub enum Level {
    Debug,
    Info,
    Error,
    Critical,
}

pub open spec fn level_rank(l: Level) -> int {
    match l {
        Level::Debug => 0,
        Level::Info => 1,
        Level::Error => 2,
        Level::Critical => 3,
    }
}

impl Level {
    /// The place of the level in the order `Debug < Info < Error < Critical`.
    pub fn rank(self) -> (r: u8)
        ensures
            r == level_rank(self),
    {
        match self {
            Level::Debug => 0,
            Level::Info => 1,
            Level::Error => 2,
            Level::Critical => 3,
        }
    }
}

/// Writes log lines for the messages at or above its level.
pub struct Logger {
    level: Level,
}

pub open spec fn digit_char(d: int) -> char {
    if d == 0 {
        '0'
    } else if d == 1 {
        '1'
    } else if d == 2 {
        '2'
    } else if d == 3 {
        '3'
    } else if d == 4 {
        '4'
    } else if d == 5 {
        '5'
    } else if d == 6 {
        '6'
    } else if d == 7 {
        '7'
    } else if d == 8 {
        '8'
    } else {
        '9'
    }
}

/// A number below 100 on two digits.
pub open spec fn two_digits(n: int) -> Seq<char> {
    seq![digit_char(n / 10), digit_char(n % 10)]
}

/// The clock time of a Unix time, as hours (one hour ahead of UTC), minutes
/// and seconds.
pub open spec fn clock(now_secs: u64) -> (int, int, int) {
    let secs_in_day = now_secs as int % 86400;
    ((secs_in_day / 3600 + 1) % 24, (secs_in_day / 60) % 60, secs_in_day % 60)
}

pub open spec fn level_color(l: Level) -> Seq<char> {
    match l {
        Level::Debug => "\x1b[34m"@,
        Level::Info => "\x1b[32m"@,
        Level::Error => "\x1b[31m"@,
        Level::Critical => "\x1b[1;31m"@,
    }
}

pub open spec fn level_name(l: Level) -> Seq<char> {
    match l {
        Level::Debug => "Debug"@,
        Level::Info => "Info"@,
        Level::Error => "Error"@,
        Level::Critical => "Critical"@,
    }
}

/// `[hh:mm:ss]` in gray, then `[Level]` in the level's color, then the message.
pub open spec fn log_line(l: Level, msg: Seq<char>, now_secs: u64) -> Seq<char> {
    let (h, m, s) = clock(now_secs);
    "\x1b[90m"@ + "["@ + two_digits(h) + ":"@ + two_digits(m) + ":"@ + two_digits(s) + "]"@
        + "\x1b[0m"@ + " "@ + level_color(l) + "["@ + level_name(l) + "]"@ + "\x1b[0m"@
        + " - "@ + msg
}

/// The line a logger with minimum level `min` writes for a message: none when
/// the message is below that level.
pub open spec fn logged(min: Level, l: Level, msg: Seq<char>, now_secs: u64) -> Option<Seq<char>> {
    if level_rank(l) < level_rank(min) {
        None
    } else {
        Some(log_line(l, msg, now_secs))
    }
}

pub(crate) fn digit_text(d: u64) -> (r: &'static str)
    requires
        d < 10,
    ensures
        r@ == seq![digit_char(d as int)],
{
    proof {
        reveal_strlit("0");
        reveal_strlit("1");
        reveal_strlit("2");
        reveal_strlit("3");
        reveal_strlit("4");
        reveal_strlit("5");
        reveal_strlit("6");
        reveal_strlit("7");
        reveal_strlit("8");
        reveal_strlit("9");
    }
    if d == 0 {
        "0"
    } else if d == 1 {
        "1"
    } else if d == 2 {
        "2"
    } else if d == 3 {
        "3"
    } else if d == 4 {
        "4"
    } else if d == 5 {
        "5"
    } else if d == 6 {
        "6"
    } else if d == 7 {
        "7"
    } else if d == 8 {
        "8"
    } else {
        "9"
    }
}

fn push_two_digits(line: String, n: u64) -> (r: String)
    requires
        n < 100,
    ensures
        r@ == line@ + two_digits(n as int),
{
    let r = line.concat(digit_text(n / 10)).concat(digit_text(n % 10));
    assert(r@ =~= line@ + two_digits(n as int));
    r
}

fn color_text(l: Level) -> (r: &'static str)
    ensures
        r@ == level_color(l),
{
    proof {
        reveal_strlit("\x1b[34m");
        reveal_strlit("\x1b[32m");
        reveal_strlit("\x1b[31m");
        reveal_strlit("\x1b[1;31m");
    }
    match l {
        Level::Debug => "\x1b[34m",
        Level::Info => "\x1b[32m",
        Level::Error => "\x1b[31m",
        Level::Critical => "\x1b[1;31m",
    }
}

fn name_text(l: Level) -> (r: &'static str)
    ensures
        r@ == level_name(l),
{
    proof {
        reveal_strlit("Debug");
        reveal_strlit("Info");
        reveal_strlit("Error");
        reveal_strlit("Critical");
    }
    match l {
        Level::Debug => "Debug",
        Level::Info => "Info",
        Level::Error => "Error",
        Level::Critical => "Critical",
    }
}

/// The log line for a message (see [`log_line`]).
pub fn format_line(l: Level, msg: &str, now_secs: u64) -> (r: String)
    ensures
        r@ == log_line(l, msg@, now_secs),
{
    let secs_in_day = now_secs % 86400;
    let hours = (secs_in_day / 3600 + 1) % 24;
    let minutes = (secs_in_day / 60) % 60;
    let seconds = secs_in_day % 60;
    proof {
        reveal_strlit("\x1b[90m");
        reveal_strlit("[");
        reveal_strlit(":");
        reveal_strlit("]");
        reveal_strlit("\x1b[0m");
        reveal_strlit(" ");
        reveal_strlit(" - ");
    }
    let line = String::from_str("\x1b[90m").concat("[");
    let line = push_two_digits(line, hours);
    let line = push_two_digits(line.concat(":"), minutes);
    let line = push_two_digits(line.concat(":"), seconds);
    let line = line.concat("]").concat("\x1b[0m").concat(" ").concat(color_text(l)).concat(
        "[",
    ).concat(name_text(l)).concat("]").concat("\x1b[0m").concat(" - ").concat(msg);
    assert(line@ =~= log_line(l, msg@, now_secs));
    line
}

impl Logger {
    /// The minimum level of messages that are written.
    pub closed spec fn min_level(&self) -> Level {
        self.level
    }

    /// A logger that writes every message.
    pub fn new() -> (l: Logger)
        ensures
            l.min_level() == Level::Debug,
    {
        Logger { level: Level::Debug }
    }

    /// The line to write for a message at `msg_level`, at Unix time
    /// `now_secs`; `None` when the message is below the logger's level.
    pub fn log(&self, msg_level: Level, msg: &str, now_secs: u64) -> (r: Option<String>)
        ensures
            text_view(r) == logged(self.min_level(), msg_level, msg@, now_secs),
    {
        if msg_level.rank() < self.level.rank() {
            return None;
        }
        Some(format_line(msg_level, msg, now_secs))
    }

    pub fn debug(&self, msg: &str, now_secs: u64) -> (r: Option<String>)
        ensures
            text_view(r) == logged(self.min_level(), Level::Debug, msg@, now_secs),
    {
        self.log(Level::Debug, msg, now_secs)
    }

    pub fn info(&self, msg: &str, now_secs: u64) -> (r: Option<String>)
        ensures
            text_view(r) == logged(self.min_level(), Level::Info, msg@, now_secs),
    {
        self.log(Level::Info, msg, now_secs)
    }

    pub fn error(&self, msg: &str, now_secs: u64) -> (r: Option<String>)
        ensures
            text_view(r) == logged(self.min_level(), Level::Error, msg@, now_secs),
    {
        self.log(Level::Error, msg, now_secs)
    }

    pub fn critical(&self, msg: &str, now_secs: u64) -> (r: Option<String>)
        ensures
            text_view(r) == logged(self.min_level(), Level::Critical, msg@, now_secs),
    {
        self.log(Level::Critical, msg, now_secs)
    }
}

/// A number in decimal, without leading zeros.
pub open spec fn decimal(n: nat) -> Seq<char>
    decreases n,
{
    if n < 10 {
        seq![digit_char(n as int)]
    } else {
        decimal(n / 10).push(digit_char((n % 10) as int))
    }
}

/// Appends a number in decimal (see [`decimal`]).
pub fn push_decimal(line: String, n: u64) -> (r: String)
    ensures
        r@ == line@ + decimal(n as nat),
    decreases n,
{
    if n < 10 {
        let r = line.concat(digit_text(n));
        assert(r@ =~= line@ + decimal(n as nat));
        r
    } else {
        let l = push_decimal(line, n / 10);
        let r = l.concat(digit_text(n % 10));
        assert(r@ =~= line@ + decimal(n as nat));
        r
    }
}

} // verus!
