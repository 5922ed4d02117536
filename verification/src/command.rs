//! The commands that the bot understands.

use vstd::prelude::*;

verus! {

/// A length of time: whole seconds and the nanoseconds beyond them.
pub struct Span {
    pub secs: u64,
    pub nanos: u32,
}

impl Span {
    /// Nanoseconds stay below one second.
    pub open spec fn wf(&self) -> bool {
        self.nanos < 1_000_000_000
    }

    /// The length in nanoseconds.
    pub open spec fn total_nanos(&self) -> int {
        self.secs * 1_000_000_000 + self.nanos
    }
}

/// A command sent to the bot.
pub enum Command {
    /// Display the list of commands.
    Help,
    /// Ignore the entities of the replied-to message.
    Ignore,
    /// Stop ignoring the entities of the replied-to message.
    Unignore,
    /// Mute the bot in this chat for a period of time; zero unmutes.
    Mute(Span),
}

/// What `fundu::parse_duration` makes of `text`: the duration as whole
/// seconds and nanoseconds, or the message of its error where it refuses
/// the text.
pub uninterp spec fn fundu_duration(text: Seq<char>) -> Result<(u64, u32), Seq<char>>;

/// Reads a duration with `fundu::parse_duration` (a number with an optional
/// time unit such as `s`, `m`, `h`, `d`), believed to be `fundu_duration`
/// of the text: the duration, whose nanoseconds stay below one second as in
/// every `std::time::Duration`, or the error's message.
#[verifier::external_body]
fn parse_fundu(text: &str) -> (r: Result<(u64, u32), String>)
    ensures
        match r {
            Ok(d) => fundu_duration(text@) == Ok::<(u64, u32), Seq<char>>(d) && d.1 < 1_000_000_000,
            Err(m) => fundu_duration(text@) == Err::<(u64, u32), Seq<char>>(m@),
        },
{
    match fundu::parse_duration(text) {
        Ok(d) => Ok((d.as_secs(), d.subsec_nanos())),
        Err(e) => Err(e.to_string()),
    }
}

/// Why the argument of `/mute` is not a duration.
pub enum CommandParseError {
    /// The argument has the wrong format; the message says how.
    IncorrectFormat(String),
}

/// Reads the argument of `/mute` as a human-readable duration: the duration
/// where `fundu` reads one, and otherwise a format error carrying `fundu`'s
/// message.
pub fn human_duration_parser(s: &str) -> (r: Result<Span, CommandParseError>)
    ensures
        match r {
            Ok(span) => span.wf() && fundu_duration(s@) == Ok::<(u64, u32), Seq<char>>(
                (span.secs, span.nanos),
            ),
            Err(CommandParseError::IncorrectFormat(m)) => fundu_duration(s@) == Err::<
                (u64, u32),
                Seq<char>,
            >(m@),
        },
{
    match parse_fundu(s) {
        Ok((secs, nanos)) => Ok(Span { secs, nanos }),
        Err(msg) => Err(CommandParseError::IncorrectFormat(msg)),
    }
}

} // verus!
