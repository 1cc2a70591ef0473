//! The log of what happened, newest line first.

use vstd::prelude::*;
use crate::components::{Color, ColorPair, WantsToLog};
use crate::components::spec_white_on_black;
use crate::world::{Command, CommandBuffer, CommandView};

verus! {

/// The number of lines that the log keeps.
pub const MAX_LOG_LENGTH: usize = 6;

/// A line of the log.
#[derive(Clone, Debug, PartialEq, Eq)]
pub struct LogEntry {
    pub message: String,
    pub color: ColorPair,
}

/// A line of the log as a plain value.
pub struct LogEntryView {
    pub message: Seq<char>,
    pub color: ColorPair,
}

impl View for LogEntry {
    type V = LogEntryView;

    open spec fn view(&self) -> LogEntryView {
        LogEntryView { message: self.message@, color: self.color }
    }
}

/// The log. The first line is the newest.
pub struct EventLog {
    pub messages: Vec<LogEntry>,
}

impl View for EventLog {
    type V = Seq<LogEntryView>;

    open spec fn view(&self) -> Seq<LogEntryView> {
        self.messages@.map_values(|entry: LogEntry| entry@)
    }
}

/// The log after `entry` has come in: the entry goes to the front, and the
/// oldest line leaves where the log would grow beyond its length.
pub open spec fn spec_logged(log: Seq<LogEntryView>, entry: LogEntryView) -> Seq<LogEntryView> {
    let longer = seq![entry] + log;
    if longer.len() > MAX_LOG_LENGTH {
        longer.drop_last()
    } else {
        longer
    }
}

impl EventLog {
    pub fn new() -> (log: EventLog)
        ensures
            log@ == Seq::<LogEntryView>::empty(),
    {
        let log = Self { messages: Vec::new() };
        assert(log@ =~= Seq::<LogEntryView>::empty());
        log
    }

    /// Queues the intent to log `msg`, in white on black.
    pub fn log(commands: &mut CommandBuffer, msg: String)
        ensures
            final(commands)@ == old(commands)@.push(
                CommandView::Log(LogEntryView { message: msg@, color: spec_white_on_black() }),
            ),
    {
        let entry = LogEntry { message: msg, color: ColorPair::new(Color::white(), Color::black()) };
        commands.push(Command::Log(WantsToLog { log_entry: entry }));
    }

    /// Takes a line into the log.
    pub fn record(&mut self, entry: LogEntry)
        ensures
            final(self)@ == spec_logged(old(self)@, entry@),
    {
        let ghost before = self@;
        let ghost e = entry@;
        self.messages.insert(0, entry);
        assert(self@ =~= seq![e] + before);
        if self.messages.len() > MAX_LOG_LENGTH {
            let ghost longer = self@;
            self.messages.pop();
            assert(self@ =~= longer.drop_last());
        }
    }
}

} // verus!
