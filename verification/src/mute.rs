//! The `/mute` command: the interval stored for the chat, and the reply.

use vstd::prelude::*;

use crate::command::Span;

verus! {

/// The message of the error that `PgInterval::try_from` gives for a
/// duration finer than a microsecond.
pub open spec fn precision_error() -> Seq<char> {
    "PostgreSQL `INTERVAL` does not support nanoseconds precision"@
}

/// The message of the error that `PgInterval::try_from` gives for the
/// duration of `secs` seconds and `nanos` nanoseconds, where it refuses it.
pub uninterp spec fn pg_interval_error(secs: u64, nanos: u32) -> Seq<char>;

/// Converts a duration into a PostgreSQL interval with `sqlx`'s
/// `PgInterval::try_from`, keeping the microseconds (months and days are
/// always zero there). Its source refuses a duration whose nanoseconds are
/// not whole microseconds, with `precision_error()`, and one whose
/// microseconds exceed `i64`, with the message of the failed integer
/// conversion; either message is believed to be `pg_interval_error` of the
/// duration, and only the first is spelled out.
#[verifier::external_body]
fn pg_interval_micros(secs: u64, nanos: u32) -> (r: Result<i64, String>)
    requires
        nanos < 1_000_000_000,
    ensures
        (r is Ok) == (nanos % 1000 == 0 && secs * 1_000_000 + nanos / 1000 <= i64::MAX),
        match r {
            Ok(m) => m == secs * 1_000_000 + nanos / 1000,
            Err(e) => e@ == pg_interval_error(secs, nanos) && (nanos % 1000 != 0 ==> e@
                == precision_error()),
        },
{
    match sqlx::postgres::types::PgInterval::try_from(std::time::Duration::new(secs, nanos)) {
        Ok(i) => Ok(i.microseconds),
        Err(e) => Err(e.to_string()),
    }
}

/// The interval, in microseconds, for which `/mute` silences the chat, or
/// the message of the conversion error that tells why the duration cannot
/// be stored.
pub fn mute_interval(span: &Span) -> (r: Result<i64, String>)
    requires
        span.wf(),
    ensures
        (r is Ok) == (span.nanos % 1000 == 0 && span.total_nanos() / 1000 <= i64::MAX),
        match r {
            Ok(m) => m == span.total_nanos() / 1000,
            Err(e) => e@ == pg_interval_error(span.secs, span.nanos) && (span.nanos % 1000 != 0
                ==> e@ == precision_error()),
        },
{
    let r = pg_interval_micros(span.secs, span.nanos);
    assert(span.total_nanos() / 1000 == span.secs * 1_000_000 + span.nanos / 1000);
    r
}

/// The reply to `/mute`: a zero duration unmutes; otherwise the reply tells
/// until when, as the database rendered that time.
pub open spec fn mute_text(span: Span, until: Seq<char>) -> Seq<char> {
    if span.total_nanos() == 0 {
        "unmuted."@
    } else {
        "muted until "@ + until + "."@
    }
}

/// The reply to `/mute` for `span`, given the end of the muting as text.
pub fn mute_reply(span: &Span, until: &str) -> (r: String)
    ensures
        r@ == mute_text(*span, until@),
        (r@ == "unmuted."@) <==> (span.secs == 0 && span.nanos == 0),
{
    proof {
        lemma_mute_reply_unmutes_only_zero(*span, until@);
    }
    if span.secs == 0 && span.nanos == 0 {
        String::from_str("unmuted.")
    } else {
        let mut r = String::from_str("muted until ");
        r.append(until);
        r.append(".");
        r
    }
}

/// The reply to `/mute` is "unmuted." exactly for a zero duration, and for
/// every other duration it says until when.
pub proof fn lemma_mute_reply_unmutes_only_zero(span: Span, until: Seq<char>)
    ensures
        (mute_text(span, until) == "unmuted."@) <==> (span.secs == 0 && span.nanos == 0),
        !(span.secs == 0 && span.nanos == 0) ==> mute_text(span, until) == "muted until "@ + until
            + "."@,
{
    reveal_strlit("unmuted.");
    reveal_strlit("muted until ");
    reveal_strlit(".");
    if !(span.secs == 0 && span.nanos == 0) {
        assert(span.secs * 1_000_000_000 + span.nanos > 0) by (nonlinear_arith)
            requires
                !(span.secs == 0 && span.nanos == 0),
        ;
        let t = "muted until "@ + until + "."@;
        assert(t[0] == 'm');
        assert("unmuted."@[0] == 'u');
    }
}

} // verus!
