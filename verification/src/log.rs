//! Levelled, contextualised log records.

use crate::text::{decimal, decimal3, push_decimal, push_decimal3};
use vstd::prelude::*;

verus! {

/// Severity of a log record, from the least to the most severe.
#[derive(Debug, Clone, Copy, PartialEq, Eq, PartialOrd, Ord, Structural)]
pub enum Level {
    Debug,
    Info,
    Error,
    System,
    SystemError,
}

impl Level {
    /// Position of the level in the severity order.
    pub open spec fn rank_spec(self) -> nat {
        match self {
            Level::Debug => 0,
            Level::Info => 1,
            Level::Error => 2,
            Level::System => 3,
            Level::SystemError => 4,
        }
    }

    /// Upper-case name of the level as it appears in a rendered line.
    pub open spec fn name_spec(self) -> Seq<char> {
        match self {
            Level::Debug => "DEBUG"@,
            Level::Info => "INFO"@,
            Level::Error => "ERROR"@,
            Level::System => "SYSTEM"@,
            Level::SystemError => "SYSTEM_ERROR"@,
        }
    }

    /// Position of the level in the severity order.
    pub fn rank(self) -> (r: u8)
        ensures
            r == self.rank_spec(),
    {
        match self {
            Level::Debug => 0,
            Level::Info => 1,
            Level::Error => 2,
            Level::System => 3,
            Level::SystemError => 4,
        }
    }

    /// Upper-case name of the level.
    pub fn to_string(&self) -> (name: String)
        ensures
            name@ == self.name_spec(),
    {
        let text = match self {
            Level::System => "SYSTEM",
            Level::SystemError => "SYSTEM_ERROR",
            Level::Debug => "DEBUG",
            Level::Info => "INFO",
            Level::Error => "ERROR",
        };
        String::from_str(text)
    }
}

impl Default for Level {
    fn default() -> (level: Level)
        ensures
            level == Level::System,
    {
        Level::System
    }
}

/// One message on its way to a sink: the severity, the labels of the
/// component that speaks, written one after the other, and the text.
#[derive(Debug, PartialEq, Eq)]
pub struct Record {
    pub level: Level,
    pub context: String,
    pub message: String,
}

/// What a [`Record`] holds, as plain values.
pub struct RecordView {
    pub level: Level,
    pub context: Seq<char>,
    pub message: Seq<char>,
}

/// Seconds and milliseconds since the Unix epoch as they are printed in
/// front of a line: the seconds, a dot, and three digits of milliseconds.
pub open spec fn timestamp_text(secs: nat, millis: nat) -> Seq<char> {
    decimal(secs) + seq!['.'] + decimal3(millis)
}

fn push_timestamp(out: &mut String, secs: u64, millis: u32)
    ensures
        final(out)@ == old(out)@ + timestamp_text(secs as nat, millis as nat),
{
    proof {
        reveal_strlit(".");
    }
    push_decimal(out, secs);
    out.append(".");
    push_decimal3(out, millis as u64);
}

impl RecordView {
    /// The line that a sink prints for this record at the given time.
    pub open spec fn render(self, secs: nat, millis: nat) -> Seq<char> {
        timestamp_text(secs, millis) + seq![' '] + self.level.name_spec() + seq![' ']
            + self.context + seq![' '] + self.message
    }
}

impl View for Record {
    type V = RecordView;

    open spec fn view(&self) -> RecordView {
        RecordView { level: self.level, context: self.context@, message: self.message@ }
    }
}

impl DeepView for Record {
    type V = RecordView;

    open spec fn deep_view(&self) -> RecordView {
        self@
    }
}

impl Record {
    /// Renders the record as one line of text, stamped with the time at
    /// which the sink emits it.
    pub fn render(&self, secs: u64, millis: u32) -> (line: String)
        ensures
            line@ == self@.render(secs as nat, millis as nat),
    {
        proof {
            reveal_strlit(" ");
        }
        let mut line = String::new();
        push_timestamp(&mut line, secs, millis);
        line.append(" ");
        let name = self.level.to_string();
        line.append(name.as_str());
        line.append(" ");
        line.append(self.context.as_str());
        line.append(" ");
        line.append(self.message.as_str());
        line
    }
}

/// An immutable carrier of a severity, a minimum severity and a stack of
/// context labels. Every derivation returns a new value.
#[derive(Debug)]
pub struct Logger {
    constraint_level: Level,
    level: Level,
    context_stack: Vec<String>,
    noop: bool,
}

/// What a [`Logger`] holds, as plain values.
pub struct LoggerView {
    /// Records below this severity are dropped.
    pub constraint_level: Level,
    /// Severity of the records that this logger makes.
    pub level: Level,
    /// Context labels, outermost first, each already in brackets.
    pub context_stack: Seq<Seq<char>>,
    /// A logger that is switched off makes no record at all.
    pub noop: bool,
}

/// A context label as it is kept on the stack: in square brackets.
pub open spec fn bracketed(context: Seq<char>) -> Seq<char> {
    seq!['['] + context + seq![']']
}

impl LoggerView {
    /// Whether a logger in this state makes records.
    pub open spec fn enabled(self) -> bool {
        !self.noop && self.constraint_level.rank_spec() <= self.level.rank_spec()
    }

    /// The context labels written one after the other.
    pub open spec fn full_context(self) -> Seq<char> {
        self.context_stack.flatten()
    }

    /// The record that a logger in this state makes of `message`, if any.
    pub open spec fn record(self, message: Seq<char>) -> Option<RecordView> {
        if self.enabled() {
            Some(RecordView { level: self.level, context: self.full_context(), message })
        } else {
            None
        }
    }
}

impl View for Logger {
    type V = LoggerView;

    closed spec fn view(&self) -> LoggerView {
        LoggerView {
            constraint_level: self.constraint_level,
            level: self.level,
            context_stack: self.context_stack.deep_view(),
            noop: self.noop,
        }
    }
}

impl Default for Logger {
    fn default() -> (logger: Logger)
        ensures
            logger@ == (LoggerView {
                constraint_level: Level::System,
                level: Level::System,
                context_stack: Seq::empty(),
                noop: false,
            }),
    {
        let logger = Logger {
            constraint_level: Level::System,
            level: Level::System,
            context_stack: Vec::new(),
            noop: false,
        };
        assert(logger.context_stack.deep_view() =~= Seq::empty());
        logger
    }
}

impl Clone for Logger {
    fn clone(&self) -> (copy: Logger)
        ensures
            copy@ == self@,
    {
        let mut stack: Vec<String> = Vec::new();
        let mut i: usize = 0;
        while i < self.context_stack.len()
            invariant
                i <= self.context_stack.len(),
                stack.len() == i,
                forall|j: int| 0 <= j < i ==> stack[j]@ == self.context_stack[j]@,
            decreases self.context_stack.len() - i,
        {
            stack.push(self.context_stack[i].clone());
            i = i + 1;
        }
        assert(stack.deep_view() =~= self.context_stack.deep_view());
        Logger {
            constraint_level: self.constraint_level,
            level: self.level,
            context_stack: stack,
            noop: self.noop,
        }
    }
}

impl Logger {
    /// A logger like this one with `context`, in brackets, as its innermost
    /// label.
    pub fn with(&self, context: &str) -> (derived: Logger)
        ensures
            derived@ == (LoggerView {
                context_stack: self@.context_stack.push(bracketed(context@)),
                ..self@
            }),
    {
        proof {
            reveal_strlit("[");
            reveal_strlit("]");
        }
        let mut derived = self.clone();
        let mut label = String::from_str("[");
        label.append(context);
        label.append("]");
        assert(label@ =~= bracketed(context@));
        derived.context_stack.push(label);
        assert(derived.context_stack.deep_view() =~= self.context_stack.deep_view().push(
            bracketed(context@),
        ));
        derived
    }

    /// A logger like this one that drops records below `constraint_level`.
    pub fn with_constraint(&self, constraint_level: Level) -> (derived: Logger)
        ensures
            derived@ == (LoggerView { constraint_level, ..self@ }),
    {
        let mut derived = self.clone();
        derived.constraint_level = constraint_level;
        derived
    }

    /// A logger like this one whose records have the severity `level`.
    pub fn with_level(&self, level: Level) -> (derived: Logger)
        ensures
            derived@ == (LoggerView { level, ..self@ }),
    {
        let mut derived = self.clone();
        derived.level = level;
        derived
    }

    /// A logger like this one that is switched off.
    pub fn noop(&self) -> (derived: Logger)
        ensures
            derived@ == (LoggerView { noop: true, ..self@ }),
    {
        let mut derived = self.clone();
        derived.noop = true;
        derived
    }

    /// Makes the record of `message`, unless the logger is switched off or
    /// its severity lies below its minimum. The caller hands the record to
    /// its sink.
    pub fn log(&self, message: &str) -> (record: Option<Record>)
        ensures
            record.deep_view() == self@.record(message@),
    {
        if self.noop {
            return None;
        }
        if self.constraint_level.rank() > self.level.rank() {
            return None;
        }
        Some(
            Record {
                level: self.level,
                context: self.full_context(),
                message: String::from_str(message),
            },
        )
    }

    /// The context labels written one after the other.
    pub fn full_context(&self) -> (text: String)
        ensures
            text@ == self@.full_context(),
    {
        let mut text = String::new();
        let mut i: usize = 0;
        while i < self.context_stack.len()
            invariant
                i <= self.context_stack.len(),
                text@ == self.context_stack.deep_view().take(i as int).flatten(),
            decreases self.context_stack.len() - i,
        {
            text.append(self.context_stack[i].as_str());
            proof {
                let labels = self.context_stack.deep_view();
                assert(labels.take(i + 1) =~= labels.take(i as int).push(labels[i as int]));
                labels.take(i as int).lemma_flatten_push(labels[i as int]);
            }
            i = i + 1;
        }
        assert(self.context_stack.deep_view().take(i as int) =~= self.context_stack.deep_view());
        text
    }

    /// The time in front of a line: `secs`, a dot, and `millis` in at least
    /// three digits.
    pub fn timestamp(&self, secs: u64, millis: u32) -> (text: String)
        ensures
            text@ == timestamp_text(secs as nat, millis as nat),
    {
        let mut text = String::new();
        push_timestamp(&mut text, secs, millis);
        text
    }
}

} // verus!
