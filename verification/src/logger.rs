//! The levels of the log and how a level is read from text.

use vstd::prelude::*;
use vstd::string::*;

verus! {

/// The severity of a message, from least to most severe: `Debug`, `Info`,
/// `Warn`, `Error`. A log shows the messages that are at least as severe as
/// the level it is set to, so that `Debug` shows all of them.
#[derive(Debug, Clone, Copy, Default, PartialEq, Eq, PartialOrd, Ord)]
pub enum LogLevel {
    Debug,
    #[default]
    Info,
    Warn,
    Error,
}

/// The value that decimal digits stand for.
pub open spec fn digits_value(digits: Seq<char>) -> nat
    decreases digits.len(),
{
    if digits.len() == 0 {
        0
    } else {
        digits_value(digits.drop_last()) * 10 + ((digits.last() as u32 - '0' as u32) as nat)
    }
}

/// The text is made of decimal digits only.
pub open spec fn all_digits(text: Seq<char>) -> bool {
    forall|i: int| 0 <= i < text.len() ==> '0' <= #[trigger] text[i] <= '9'
}

/// The number that `text` is as a `u8`: an optional `+`, then one or more
/// decimal digits whose value is at most 255. Any other text is no number.
pub open spec fn u8_of_text(text: Seq<char>) -> Option<u8> {
    let digits = if text.len() > 0 && text[0] == '+' {
        text.drop_first()
    } else {
        text
    };
    if digits.len() > 0 && all_digits(digits) && digits_value(digits) <= 255 {
        Some(digits_value(digits) as u8)
    } else {
        None
    }
}

/// The lowercase form of a text, as Unicode defines it.
pub uninterp spec fn lowercase_of(text: Seq<char>) -> Seq<char>;

/// Reads a `u8` by `str::parse`, which takes an optional `+` sign followed by
/// decimal digits only and fails on an empty text, on any other character
/// and on a value that a `u8` does not hold.
#[verifier::external_body]
fn parse_u8(text: &str) -> (number: Option<u8>)
    ensures
        number == u8_of_text(text@),
{
    text.parse::<u8>().ok()
}

/// The lowercase form of a text, by `str::to_lowercase`. The contract only
/// names the result.
#[verifier::external_body]
fn lowercase(text: &str) -> (lower: String)
    ensures
        lower@ == lowercase_of(text@),
{
    text.to_lowercase()
}

/// What is said of a text that is no level.
pub open spec fn invalid_level(text: Seq<char>) -> Seq<char> {
    "Invalid log level '"@ + text + "'"@
}

/// The level that a name in lowercase letters names: `debug`, `info`, `warn`
/// or `error`. Any other text names no level.
pub open spec fn level_named(lower: Seq<char>) -> Option<LogLevel> {
    if lower == "debug"@ {
        Some(LogLevel::Debug)
    } else if lower == "info"@ {
        Some(LogLevel::Info)
    } else if lower == "warn"@ {
        Some(LogLevel::Warn)
    } else if lower == "error"@ {
        Some(LogLevel::Error)
    } else {
        None
    }
}

/// The level that a text names: one of the numbers 0 to 3, for `Debug` to
/// `Error`, or, where the text is no number that a `u8` holds, the name of a
/// level in letters of either case.
pub open spec fn level_of_text(text: Seq<char>) -> Option<LogLevel> {
    match u8_of_text(text) {
        Some(number) => LogLevel::of_rank(number as int),
        None => level_named(lowercase_of(text)),
    }
}

/// The level that a name in lowercase letters names, if it names one.
pub fn level_of_name(lower: &str) -> (level: Option<LogLevel>)
    ensures
        level == level_named(lower@),
{
    let name = lower.to_string();
    if name == "debug".to_string() {
        Some(LogLevel::Debug)
    } else if name == "info".to_string() {
        Some(LogLevel::Info)
    } else if name == "warn".to_string() {
        Some(LogLevel::Warn)
    } else if name == "error".to_string() {
        Some(LogLevel::Error)
    } else {
        None
    }
}

/// The level of a number, if the number is the rank of one.
pub fn level_of_number(number: u8) -> (level: Option<LogLevel>)
    ensures
        level == LogLevel::of_rank(number as int),
{
    if number == 0 {
        Some(LogLevel::Debug)
    } else if number == 1 {
        Some(LogLevel::Info)
    } else if number == 2 {
        Some(LogLevel::Warn)
    } else if number == 3 {
        Some(LogLevel::Error)
    } else {
        None
    }
}

impl LogLevel {
    /// The rank of the level: 0 for `Debug` up to 3 for `Error`.
    pub open spec fn rank(self) -> int {
        match self {
            LogLevel::Debug => 0,
            LogLevel::Info => 1,
            LogLevel::Warn => 2,
            LogLevel::Error => 3,
        }
    }

    /// The level of a rank, if the rank is one.
    pub open spec fn of_rank(rank: int) -> Option<LogLevel> {
        if rank == 0 {
            Some(LogLevel::Debug)
        } else if rank == 1 {
            Some(LogLevel::Info)
        } else if rank == 2 {
            Some(LogLevel::Warn)
        } else if rank == 3 {
            Some(LogLevel::Error)
        } else {
            None
        }
    }

    /// The name of the level.
    pub open spec fn spec_name(self) -> Seq<char> {
        match self {
            LogLevel::Debug => "Debug"@,
            LogLevel::Info => "Info"@,
            LogLevel::Warn => "Warn"@,
            LogLevel::Error => "Error"@,
        }
    }

    /// The rank of the level: 0 for `Debug` up to 3 for `Error`.
    pub fn severity(&self) -> (rank: u8)
        ensures
            rank == self.rank(),
    {
        match self {
            LogLevel::Debug => 0,
            LogLevel::Info => 1,
            LogLevel::Warn => 2,
            LogLevel::Error => 3,
        }
    }

    /// Whether a message of this level is shown by a log set to `minimum`.
    pub fn is_shown_at(&self, minimum: LogLevel) -> (shown: bool)
        ensures
            shown == (self.rank() >= minimum.rank()),
    {
        self.severity() >= minimum.severity()
    }

    /// The name of the level.
    pub fn name(&self) -> (name: &'static str)
        ensures
            name@ == self.spec_name(),
    {
        match self {
            LogLevel::Debug => "Debug",
            LogLevel::Info => "Info",
            LogLevel::Warn => "Warn",
            LogLevel::Error => "Error",
        }
    }

    /// The name of the level, as a text of its own.
    pub fn to_string(&self) -> (name: String)
        ensures
            name@ == self.spec_name(),
    {
        self.name().to_string()
    }

    /// Reads a level from text: a number from 0 to 3, or the name of a level
    /// in letters of either case. Any other text is refused, with a message
    /// that quotes it.
    pub fn parse(text: &str) -> (level: Result<LogLevel, String>)
        ensures
            (match level {
                Ok(l) => level_of_text(text@) == Some(l),
                Err(message) => level_of_text(text@).is_none() && message@ == invalid_level(
                    text@,
                ),
            }),
    {
        let found = match parse_u8(text) {
            Some(number) => level_of_number(number),
            None => level_of_name(lowercase(text).as_str()),
        };
        match found {
            Some(level) => Ok(level),
            None => Err(LogLevel::refusal(text)),
        }
    }

    /// What is said of a text that is no level: a message that quotes it.
    pub fn refusal(text: &str) -> (message: String)
        ensures
            message@ == invalid_level(text@),
    {
        let mut message = "Invalid log level '".to_string();
        message.append(text);
        message.append("'");
        message
    }
}

impl std::str::FromStr for LogLevel {
    type Err = String;

    /// Reads a level from text, as `LogLevel::parse` does.
    fn from_str(s: &str) -> (level: Result<Self, Self::Err>)
        ensures
            (match level {
                Ok(l) => level_of_text(s@) == Some(l),
                Err(message) => level_of_text(s@).is_none() && message@ == invalid_level(s@),
            }),
    {
        LogLevel::parse(s)
    }
}

} // verus!
