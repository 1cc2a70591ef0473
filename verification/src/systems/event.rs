//! The event log takes in the lines that were asked for.

use vstd::prelude::*;
use crate::event_log::{spec_logged, EventLog, LogEntry, LogEntryView};
use crate::world::{World, WorldView};

verus! {

/// The log after the first `n` of the lines have come in.
pub open spec fn spec_log_all(log: Seq<LogEntryView>, lines: Seq<LogEntryView>, n: nat) -> Seq<
    LogEntryView,
>
    decreases n,
{
    if n == 0 {
        log
    } else {
        spec_logged(spec_log_all(log, lines, (n - 1) as nat), lines[n - 1])
    }
}

/// Takes every line that was asked for into the log, in the order in which
/// they were asked for, and uses the intents up.
pub fn event(ecs: &mut World, event_log: &mut EventLog)
    ensures
        final(ecs)@ == (WorldView { logs: Seq::empty(), ..old(ecs)@ }),
        final(event_log)@ == spec_log_all(old(event_log)@, old(ecs)@.logs, old(ecs)@.logs.len()),
{
    let mut i: usize = 0;
    while i < ecs.logs.len()
        invariant
            i <= ecs.logs@.len(),
            ecs@ == old(ecs)@,
            event_log@ == spec_log_all(old(event_log)@, ecs@.logs, i as nat),
        decreases ecs.logs@.len() - i,
    {
        let line = &ecs.logs[i].log_entry;
        assert(ecs@.logs[i as int] == line@);
        event_log.record(LogEntry { message: line.message.clone(), color: line.color });
        i += 1;
    }
    ecs.logs.clear();
    assert(ecs@.logs =~= Seq::<LogEntryView>::empty());
}

} // verus!
