use std::time::Instant;
use vstd::prelude::*;

use crate::text::{trim_end, trimmed_end};

verus! {

/// Severity of a log entry, from least to most severe.
#[derive(Clone, Copy, Debug, PartialEq, Eq, Structural, PartialOrd, Ord, Hash)]
pub enum LogLevel {
    Debug,
    Info,
    Warning,
    Error,
    Fatal,
}

impl LogLevel {
    /// Position of the level in the order of severity.
    pub open spec fn spec_rank(self) -> nat {
        match self {
            LogLevel::Debug => 0,
            LogLevel::Info => 1,
            LogLevel::Warning => 2,
            LogLevel::Error => 3,
            LogLevel::Fatal => 4,
        }
    }

    /// Whether `self` is at least as severe as `other`.
    pub open spec fn spec_at_least(self, other: LogLevel) -> bool {
        self.spec_rank() >= other.spec_rank()
    }

    pub fn rank(self) -> (r: u8)
        ensures
            r == self.spec_rank(),
    {
        match self {
            LogLevel::Debug => 0,
            LogLevel::Info => 1,
            LogLevel::Warning => 2,
            LogLevel::Error => 3,
            LogLevel::Fatal => 4,
        }
    }

    pub fn at_least(self, other: LogLevel) -> (r: bool)
        ensures
            r == self.spec_at_least(other),
    {
        self.rank() >= other.rank()
    }

    /// The tag shown in front of a log entry of this level.
    pub open spec fn spec_label(self) -> Seq<char> {
        match self {
            LogLevel::Debug => "DEBUG"@,
            LogLevel::Info => "INFO"@,
            LogLevel::Warning => "WARN"@,
            LogLevel::Error => "ERROR"@,
            LogLevel::Fatal => "FATAL"@,
        }
    }

    pub fn label(self) -> (r: &'static str)
        ensures
            r@ == self.spec_label(),
    {
        match self {
            LogLevel::Debug => "DEBUG",
            LogLevel::Info => "INFO",
            LogLevel::Warning => "WARN",
            LogLevel::Error => "ERROR",
            LogLevel::Fatal => "FATAL",
        }
    }

    /// The colour, as red, green and blue, in which entries of this level are
    /// shown; debug entries use the light grey of the display toolkit.
    pub open spec fn spec_rgb(self) -> (u8, u8, u8) {
        match self {
            LogLevel::Debug => (220, 220, 220),
            LogLevel::Info => (120, 180, 255),
            LogLevel::Warning => (255, 200, 80),
            LogLevel::Error => (255, 100, 100),
            LogLevel::Fatal => (255, 60, 60),
        }
    }

    pub fn rgb(self) -> (r: (u8, u8, u8))
        ensures
            r == self.spec_rgb(),
    {
        match self {
            LogLevel::Debug => (220, 220, 220),
            LogLevel::Info => (120, 180, 255),
            LogLevel::Warning => (255, 200, 80),
            LogLevel::Error => (255, 100, 100),
            LogLevel::Fatal => (255, 60, 60),
        }
    }

    /// The level at which a message that an FMU reports with `status` is logged.
    pub open spec fn spec_for_status(status: FmiStatus) -> LogLevel {
        match status {
            FmiStatus::Okay | FmiStatus::Pending => LogLevel::Info,
            FmiStatus::Warning => LogLevel::Warning,
            FmiStatus::Discard | FmiStatus::Error => LogLevel::Error,
            FmiStatus::Fatal => LogLevel::Fatal,
        }
    }

    pub fn for_status(status: FmiStatus) -> (r: LogLevel)
        ensures
            r == Self::spec_for_status(status),
    {
        match status {
            FmiStatus::Okay | FmiStatus::Pending => LogLevel::Info,
            FmiStatus::Warning => LogLevel::Warning,
            FmiStatus::Discard | FmiStatus::Error => LogLevel::Error,
            FmiStatus::Fatal => LogLevel::Fatal,
        }
    }
}

/// The status with which an FMU reports a call or a message (the same set of
/// values in FMI 2 and FMI 3).
#[derive(Clone, Copy, Debug, PartialEq, Eq, Structural)]
pub enum FmiStatus {
    Okay,
    Warning,
    Discard,
    Error,
    Fatal,
    Pending,
}

/// One line of the session log.
pub struct LogEntry {
    /// Wall-clock instant at which the message was produced.
    pub at: Instant,
    pub level: LogLevel,
    pub category: String,
    pub message: String,
}

impl LogEntry {
    /// The entry that records a call into the FMU.
    pub fn for_call(at: Instant, message: &str) -> (r: LogEntry)
        ensures
            r.at == at,
            r.level == LogLevel::Debug,
            r.category@ == "FMI"@,
            r.message@ == message@,
    {
        LogEntry { at, level: LogLevel::Debug, category: "FMI".to_owned(), message: message.to_owned() }
    }

    /// The entry that records a message that the FMU logged.
    pub fn for_message(at: Instant, status: FmiStatus, category: &str, message: &str) -> (r: LogEntry)
        ensures
            r.at == at,
            r.level == LogLevel::spec_for_status(status),
            r.category@ == category@,
            r.message@ == trimmed_end(message@),
    {
        LogEntry {
            at,
            level: LogLevel::for_status(status),
            category: category.to_owned(),
            message: trim_end(message),
        }
    }
}

/// Severity is a total order: reflexive, antisymmetric, transitive and total,
/// with `Debug < Info < Warning < Error < Fatal`.
pub proof fn lemma_log_level_order(a: LogLevel, b: LogLevel, c: LogLevel)
    ensures
        a.spec_at_least(a),
        a.spec_at_least(b) && b.spec_at_least(a) ==> a == b,
        a.spec_at_least(b) && b.spec_at_least(c) ==> a.spec_at_least(c),
        a.spec_at_least(b) || b.spec_at_least(a),
        LogLevel::Info.spec_at_least(LogLevel::Debug) && !LogLevel::Debug.spec_at_least(LogLevel::Info),
        LogLevel::Warning.spec_at_least(LogLevel::Info) && !LogLevel::Info.spec_at_least(LogLevel::Warning),
        LogLevel::Error.spec_at_least(LogLevel::Warning) && !LogLevel::Warning.spec_at_least(LogLevel::Error),
        LogLevel::Fatal.spec_at_least(LogLevel::Error) && !LogLevel::Error.spec_at_least(LogLevel::Fatal),
{
}

/// Two different levels are never shown in the same colour.
pub proof fn lemma_log_level_colors_distinct(a: LogLevel, b: LogLevel)
    requires
        a != b,
    ensures
        a.spec_rgb() != b.spec_rgb(),
{
}

/// Two different levels are never shown with the same tag.
pub proof fn lemma_log_level_labels_distinct(a: LogLevel, b: LogLevel)
    requires
        a != b,
    ensures
        a.spec_label() != b.spec_label(),
{
    reveal_strlit("DEBUG");
    reveal_strlit("INFO");
    reveal_strlit("WARN");
    reveal_strlit("ERROR");
    reveal_strlit("FATAL");
    if a.spec_label().len() == b.spec_label().len() {
        assert(a.spec_label()[0] != b.spec_label()[0]);
    }
}

} // verus!
