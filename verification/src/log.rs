//! Log levels, log lines and who gets to see them.
//!
//! A line reads `[dd/MM HH:mm:ss.fff] [LVL] message`. The log file takes every line, subscribers
//! take the lines from a minimum level on, and the console takes all of them while it is switched on.

use vstd::prelude::*;
use vstd::string::*;

use crate::text;

verus! {

/// Severity of a log line, in rising order.
#[derive(Clone, Copy, PartialEq, Eq, Structural, PartialOrd, Ord, Debug)]
pub enum LogLevel {
    /// Packet details, option negotiation, retransmissions.
    Debug,
    /// The ordinary course of events.
    Info,
    /// Something that deserves attention but is not fatal.
    Warn,
    /// A failure.
    Error,
}

impl LogLevel {
    /// Position in the order of severity.
    pub open spec fn severity(self) -> nat {
        match self {
            LogLevel::Debug => 0,
            LogLevel::Info => 1,
            LogLevel::Warn => 2,
            LogLevel::Error => 3,
        }
    }

    /// Three-letter tag shown in log lines.
    pub open spec fn tag_text(self) -> Seq<char> {
        match self {
            LogLevel::Debug => "DBG"@,
            LogLevel::Info => "INF"@,
            LogLevel::Warn => "WRN"@,
            LogLevel::Error => "ERR"@,
        }
    }

    /// Three-letter tag shown in log lines.
    pub fn tag(self) -> (r: &'static str)
        ensures
            r@ == self.tag_text(),
    {
        match self {
            LogLevel::Debug => "DBG",
            LogLevel::Info => "INF",
            LogLevel::Warn => "WRN",
            LogLevel::Error => "ERR",
        }
    }

    /// Whether this level is at least as severe as `min`.
    pub fn at_least(self, min: LogLevel) -> (r: bool)
        ensures
            r == (self.severity() >= min.severity()),
    {
        match min {
            LogLevel::Debug => true,
            LogLevel::Info => self != LogLevel::Debug,
            LogLevel::Warn => self == LogLevel::Warn || self == LogLevel::Error,
            LogLevel::Error => self == LogLevel::Error,
        }
    }
}

/// A reading of the local wall clock.
#[derive(Clone, Copy, PartialEq, Eq, Structural, Debug)]
pub struct WallClock {
    pub year: i32,
    pub month: u32,
    pub day: u32,
    pub hour: u32,
    pub minute: u32,
    pub second: u32,
    /// Thousandths of a second; 1000 to 1999 within a leap second.
    pub milli: u32,
}

pub open spec fn leap_year(year: int) -> bool {
    year % 4 == 0 && (year % 100 != 0 || year % 400 == 0)
}

pub open spec fn days_in_month(year: int, month: int) -> int {
    if month == 2 {
        if leap_year(year) { 29 } else { 28 }
    } else if month == 4 || month == 6 || month == 9 || month == 11 {
        30
    } else {
        31
    }
}

impl WallClock {
    /// The reading names a moment of the Gregorian calendar within the years that can be held.
    pub open spec fn valid(self) -> bool {
        &&& -262143 <= self.year <= 262142
        &&& 1 <= self.month <= 12
        &&& 1 <= self.day <= days_in_month(self.year as int, self.month as int)
        &&& self.hour < 24
        &&& self.minute < 60
        &&& self.second < 60
        &&& self.milli < 1000 || (self.milli < 2000 && self.second == 59)
    }

    /// `dd/MM HH:mm:ss.fff`.
    pub open spec fn stamp(self) -> Seq<char> {
        two(self.day as nat) + seq!['/'] + two(self.month as nat) + seq![' '] + two(
            self.hour as nat,
        ) + seq![':'] + two(self.minute as nat) + seq![':'] + two(
            (self.second + self.milli / 1000) as nat,
        ) + seq!['.'] + three((self.milli % 1000) as nat)
    }
}

/// The two last decimal digits of a number.
pub open spec fn two(n: nat) -> Seq<char> {
    seq![text::digit_char(n / 10 % 10), text::digit_char(n % 10)]
}

/// The three last decimal digits of a number.
pub open spec fn three(n: nat) -> Seq<char> {
    seq![text::digit_char(n / 100 % 10), text::digit_char(n / 10 % 10), text::digit_char(n % 10)]
}

/// Pattern of the time stamp.
pub const STAMP_FORMAT: &'static str = "%d/%m %H:%M:%S%.3f";

/// `chrono`'s `NaiveDate::from_ymd_opt`, `NaiveDate::and_hms_milli_opt` and
/// `NaiveDateTime::format`: a reading that is no moment of the calendar gives `None`; any other is
/// written with day, month, hour, minute and second as two digits each, a leap second as second 60,
/// and the thousandths as three digits behind a point.
#[verifier::external_body]
fn chrono_stamp(at: WallClock, pattern: &str) -> (r: Option<String>)
    requires
        pattern@ == STAMP_FORMAT@,
    ensures
        match r {
            Some(t) => at.valid() && t@ == at.stamp(),
            None => !at.valid(),
        },
{
    let date = chrono::NaiveDate::from_ymd_opt(at.year, at.month, at.day)?;
    let moment = date.and_hms_milli_opt(at.hour, at.minute, at.second, at.milli)?;
    Some(moment.format(pattern).to_string())
}

/// A finished log line and where it goes besides the log file.
#[derive(Debug)]
pub struct Emission {
    pub line: String,
    pub to_subscribers: bool,
    pub to_console: bool,
}

/// What a log line reads: the stamp in brackets and, unless the message is empty, tag and message.
pub open spec fn line_text(at: WallClock, level: LogLevel, message: Seq<char>) -> Seq<char> {
    if message.len() == 0 {
        seq!['['] + at.stamp() + seq![']']
    } else {
        seq!['['] + at.stamp() + seq![']'] + " ["@ + level.tag_text() + "] "@ + message
    }
}

/// Settings of the log.
#[derive(Clone, Copy, PartialEq, Eq, Structural, Debug)]
pub struct Logger {
    /// Least level that subscribers see.
    pub ui_min: LogLevel,
    /// Whether lines also go to the console.
    pub console_echo: bool,
}

impl Default for Logger {
    fn default() -> (r: Self)
        ensures
            r.ui_min == LogLevel::Info,
            r.console_echo,
    {
        Logger::new()
    }
}

impl Logger {
    /// Subscribers see `Info` and above, and the console is on.
    pub fn new() -> (r: Self)
        ensures
            r.ui_min == LogLevel::Info,
            r.console_echo,
    {
        Logger { ui_min: LogLevel::Info, console_echo: true }
    }

    pub fn set_console_echo(&mut self, on: bool)
        ensures
            *final(self) == (Logger { console_echo: on, ..*old(self) }),
    {
        self.console_echo = on;
    }

    pub fn set_ui_level(&mut self, level: LogLevel)
        ensures
            *final(self) == (Logger { ui_min: level, ..*old(self) }),
    {
        self.ui_min = level;
    }

    /// What `e` must be for a message of `level` at the time `at`; `None` where `at` is no moment of
    /// the calendar.
    pub open spec fn emits(
        self,
        at: WallClock,
        level: LogLevel,
        message: Seq<char>,
        e: Option<Emission>,
    ) -> bool {
        match e {
            Some(e) => {
                &&& at.valid()
                &&& e.line@ == line_text(at, level, message)
                &&& e.to_subscribers == (level.severity() >= self.ui_min.severity())
                &&& e.to_console == self.console_echo
            },
            None => !at.valid(),
        }
    }

    /// Makes the line for one message.
    pub fn emit(&self, at: WallClock, level: LogLevel, message: &str) -> (r: Option<Emission>)
        ensures
            self.emits(at, level, message@, r),
    {
        match chrono_stamp(at, STAMP_FORMAT) {
            None => None,
            Some(stamp) => {
                let mut line = String::new();
                line.push('[');
                line.append(stamp.as_str());
                line.push(']');
                assert(line@ =~= seq!['['] + at.stamp() + seq![']']);
                if !message.is_empty() {
                    line.append(" [");
                    line.append(level.tag());
                    line.append("] ");
                    line.append(message);
                }
                Some(
                    Emission {
                        line,
                        to_subscribers: level.at_least(self.ui_min),
                        to_console: self.console_echo,
                    },
                )
            },
        }
    }

    pub fn debug(&self, at: WallClock, message: &str) -> (r: Option<Emission>)
        ensures
            self.emits(at, LogLevel::Debug, message@, r),
    {
        self.emit(at, LogLevel::Debug, message)
    }

    pub fn info(&self, at: WallClock, message: &str) -> (r: Option<Emission>)
        ensures
            self.emits(at, LogLevel::Info, message@, r),
    {
        self.emit(at, LogLevel::Info, message)
    }

    pub fn warn(&self, at: WallClock, message: &str) -> (r: Option<Emission>)
        ensures
            self.emits(at, LogLevel::Warn, message@, r),
    {
        self.emit(at, LogLevel::Warn, message)
    }

    pub fn error(&self, at: WallClock, message: &str) -> (r: Option<Emission>)
        ensures
            self.emits(at, LogLevel::Error, message@, r),
    {
        self.emit(at, LogLevel::Error, message)
    }

    /// The same as `info`.
    pub fn write(&self, at: WallClock, message: &str) -> (r: Option<Emission>)
        ensures
            self.emits(at, LogLevel::Info, message@, r),
    {
        self.emit(at, LogLevel::Info, message)
    }

    /// A line that holds the stamp alone.
    pub fn blank(&self, at: WallClock) -> (r: Option<Emission>)
        ensures
            self.emits(at, LogLevel::Info, Seq::<char>::empty(), r),
    {
        let nothing = String::new();
        self.emit(at, LogLevel::Info, nothing.as_str())
    }
}

} // verus!
