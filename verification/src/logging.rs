//! The timestamped, color-coded log and the sink it is written through.

use vstd::prelude::*;
use vstd::string::StringExecFns;

use crate::text::dec_digits;
use crate::text::dec_int;
use crate::text::dec_pad2;

verus! {

/// A display color, one byte per component.
#[derive(Clone, Copy, Debug, PartialEq, Eq, Structural)]
pub struct Rgb {
    pub red: u8,
    pub green: u8,
    pub blue: u8,
}

/// One log line: the already-formatted text and its severity color.
pub struct LogEntry {
    pub text: String,
    pub color: Rgb,
}

/// The logging sink: an ordered list of entries for the display layer to
/// drain. It is handed to the controller once, at startup.
pub struct Logger {
    pub entries: Vec<LogEntry>,
}

/// A wall-clock instant, split into the fields a log line shows.
#[derive(Clone, Copy, Debug, PartialEq, Eq, Structural)]
pub struct TimeParts {
    pub year: i32,
    pub month: u32,
    pub day: u32,
    pub hour: u32,
    pub minute: u32,
    pub second: u32,
}

impl TimeParts {
    /// The ranges a calendar clock reading satisfies.
    pub open spec fn wf(self) -> bool {
        &&& 1 <= self.month <= 12
        &&& 1 <= self.day <= 31
        &&& self.hour < 24
        &&& self.minute < 60
        &&& self.second < 60
    }
}

/// Relies on chrono::Local::now and chrono's Datelike and Timelike
/// accessors: the month ranges over 1..=12, the day over 1..=31, the hour
/// below 24, the minute and the second below 60. chrono aborts the call
/// when the system clock predates the Unix epoch or the timezone data is
/// unusable; those are environment states, not inputs, and are accepted
/// here as chrono's own behavior.
#[verifier::external_body]
pub(crate) fn local_time_parts() -> (t: TimeParts)
    ensures
        t.wf(),
{
    let now = chrono::Local::now();
    TimeParts {
        year: chrono::Datelike::year(&now),
        month: chrono::Datelike::month(&now),
        day: chrono::Datelike::day(&now),
        hour: chrono::Timelike::hour(&now),
        minute: chrono::Timelike::minute(&now),
        second: chrono::Timelike::second(&now),
    }
}

/// The text of a log line: a `[day/month/year hour:minute:second]` stamp,
/// then the message.
pub open spec fn log_line(t: TimeParts, msg: Seq<char>) -> Seq<char> {
    "["@ + dec_digits(t.day as nat) + "/"@ + dec_digits(t.month as nat) + "/"@ + dec_int(
        t.year as int,
    ) + " "@ + dec_pad2(t.hour as nat) + ":"@ + dec_pad2(t.minute as nat) + ":"@ + dec_pad2(
        t.second as nat,
    ) + "] "@ + msg
}

/// A text that is some valid clock reading's log line for this message.
pub open spec fn is_log_line_for(text: Seq<char>, msg: Seq<char>) -> bool {
    exists|t: TimeParts| t.wf() && text == log_line(t, msg)
}

/// Renders the log line for one clock reading.
pub fn format_log_line(t: TimeParts, msg: &str) -> (r: String)
    requires
        t.wf(),
    ensures
        r@ == log_line(t, msg@),
{
    let mut s = String::from_str("[");
    s.append(crate::text::fmt_u64(t.day as u64).as_str());
    s.append("/");
    s.append(crate::text::fmt_u64(t.month as u64).as_str());
    s.append("/");
    s.append(crate::text::fmt_i32(t.year).as_str());
    s.append(" ");
    s.append(crate::text::fmt_pad2(t.hour as u8).as_str());
    s.append(":");
    s.append(crate::text::fmt_pad2(t.minute as u8).as_str());
    s.append(":");
    s.append(crate::text::fmt_pad2(t.second as u8).as_str());
    s.append("] ");
    s.append(msg);
    proof {
        assert(s@ =~= log_line(t, msg@));
    }
    s
}

impl Logger {
    /// An empty sink.
    pub fn new() -> (lg: Logger)
        ensures
            lg.entries@.len() == 0,
    {
        Logger { entries: Vec::new() }
    }

    /// Appends one already-stamped entry.
    pub fn push_entry(&mut self, text: String, color: Rgb)
        ensures
            final(self).entries@.len() == old(self).entries@.len() + 1,
            final(self).entries@.last().text == text,
            final(self).entries@.last().color == color,
            forall|i: int|
                0 <= i < old(self).entries@.len() ==> final(self).entries@[i] == old(
                    self,
                ).entries@[i],
    {
        self.entries.push(LogEntry { text, color });
    }

    /// Stamps the message with the local time and appends it.
    pub fn log(&mut self, msg: &str, color: Rgb)
        ensures
            final(self).entries@.len() == old(self).entries@.len() + 1,
            is_log_line_for(final(self).entries@.last().text@, msg@),
            final(self).entries@.last().color == color,
            forall|i: int|
                0 <= i < old(self).entries@.len() ==> final(self).entries@[i] == old(
                    self,
                ).entries@[i],
    {
        let t = local_time_parts();
        let line = format_log_line(t, msg);
        self.push_entry(line, color);
    }

    /// Stamps and appends with the default (white) severity.
    pub fn log_default(&mut self, msg: &str)
        ensures
            final(self).entries@.len() == old(self).entries@.len() + 1,
            is_log_line_for(final(self).entries@.last().text@, msg@),
            final(self).entries@.last().color == (Rgb { red: 255, green: 255, blue: 255 }),
            forall|i: int|
                0 <= i < old(self).entries@.len() ==> final(self).entries@[i] == old(
                    self,
                ).entries@[i],
    {
        self.log(msg, Rgb { red: 255, green: 255, blue: 255 });
    }
}

} // verus!
