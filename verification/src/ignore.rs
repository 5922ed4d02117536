//! The `/ignore` and `/unignore` commands: how many entities changed, and
//! the reply that says so.

use vstd::prelude::*;

use crate::text::{decimal, u64_to_decimal};

verus! {

/// The sum of a sequence of counts.
pub open spec fn total(counts: Seq<u64>) -> int
    decreases counts.len(),
{
    if counts.len() == 0 {
        0
    } else {
        total(counts.drop_last()) + counts.last()
    }
}

/// Adds up the rows that the updates for each link of a message changed.
/// The counts must add up within `u64`: the sum is kept in a `u64`.
pub fn rows_total(counts: &Vec<u64>) -> (r: u64)
    requires
        total(counts@) <= u64::MAX,
    ensures
        r == total(counts@),
{
    let mut sum: u64 = 0;
    let mut i: usize = 0;
    while i < counts.len()
        invariant
            i <= counts.len(),
            total(counts@) <= u64::MAX,
            sum == total(counts@.take(i as int)),
        decreases counts.len() - i,
    {
        assert(counts@.take(i + 1).drop_last() =~= counts@.take(i as int));
        proof {
            lemma_total_prefix_bounded(counts@, i + 1);
        }
        sum = sum + counts[i];
        i = i + 1;
    }
    assert(counts@.take(counts.len() as int) =~= counts@);
    sum
}

/// A prefix adds up to no more than the whole.
pub proof fn lemma_total_prefix_bounded(counts: Seq<u64>, n: int)
    requires
        0 <= n <= counts.len(),
    ensures
        total(counts.take(n)) <= total(counts),
    decreases counts.len(),
{
    if n < counts.len() {
        assert(counts.drop_last().take(n) =~= counts.take(n));
        lemma_total_prefix_bounded(counts.drop_last(), n);
    } else {
        assert(counts.take(n) =~= counts);
    }
}

/// The reply to `/ignore` (where `ignore`) or `/unignore`: without a message
/// replied to, how to use the command; otherwise how many entities changed.
pub open spec fn ignore_text(ignore: bool, changed: Option<int>) -> Seq<char> {
    match changed {
        None => if ignore {
            "You must reply to a message to ignore it."@
        } else {
            "You must reply to a message to unignore it."@
        },
        Some(n) => decimal(n as nat) + if ignore {
            " entities ignored."@
        } else {
            " entities unignored."@
        },
    }
}

/// The reply to `/ignore` or `/unignore`, given the rows changed for the
/// links, the forward and the picture of the message replied to, if any.
/// The three must add up within `u64`: their sum is taken in a `u64`.
pub fn ignore_reply(ignore: bool, changed: Option<(u64, u64, u64)>) -> (r: String)
    requires
        changed matches Some((l, f, p)) ==> l + f + p <= u64::MAX,
    ensures
        r@ == ignore_text(
            ignore,
            match changed {
                Some((l, f, p)) => Some(l + f + p),
                None => None,
            },
        ),
{
    match changed {
        None => if ignore {
            String::from_str("You must reply to a message to ignore it.")
        } else {
            String::from_str("You must reply to a message to unignore it.")
        },
        Some((l, f, p)) => {
            let n = l + f + p;
            let mut r = u64_to_decimal(n);
            if ignore {
                r.append(" entities ignored.");
            } else {
                r.append(" entities unignored.");
            }
            r
        },
    }
}

/// `text` ends with `suffix`.
pub open spec fn ends_with(text: Seq<char>, suffix: Seq<char>) -> bool {
    suffix.len() <= text.len() && text.skip(text.len() - suffix.len()) == suffix
}

/// For a message replied to, the reply gives the count and then ends in
/// " entities ignored." exactly for `/ignore` and in " entities unignored."
/// exactly for `/unignore`, whatever the count.
pub proof fn lemma_ignore_reply_names_the_command(ignore: bool, n: nat)
    ensures
        ignore_text(ignore, Some(n as int)).take(decimal(n).len() as int) == decimal(n),
        ends_with(ignore_text(ignore, Some(n as int)), " entities ignored."@) <==> ignore,
        ends_with(ignore_text(ignore, Some(n as int)), " entities unignored."@) <==> !ignore,
{
    reveal_strlit(" entities ignored.");
    reveal_strlit(" entities unignored.");
    let d = decimal(n);
    let yes = " entities ignored."@;
    let no = " entities unignored."@;
    let t = ignore_text(ignore, Some(n as int));
    if ignore {
        assert(t == d + yes);
        assert(t.take(d.len() as int) =~= d);
        assert(t.skip(t.len() - yes.len()) =~= yes);
        if ends_with(t, no) {
            assert(t.skip(t.len() - no.len())[2] == no[2]);
            assert(t[t.len() - no.len() + 2] == yes[0]);
        }
    } else {
        assert(t == d + no);
        assert(t.take(d.len() as int) =~= d);
        assert(t.skip(t.len() - no.len()) =~= no);
        assert(t.skip(t.len() - yes.len())[0] == no[2]);
    }
}

/// The total of two runs of counts is the sum of their totals, and a single
/// count totals to itself.
pub proof fn lemma_total_adds(a: Seq<u64>, b: Seq<u64>, x: u64)
    ensures
        total(a + b) == total(a) + total(b),
        total(seq![x]) == x,
        total(Seq::<u64>::empty()) == 0,
    decreases b.len(),
{
    assert(seq![x].drop_last() =~= Seq::<u64>::empty());
    assert(total(seq![x]) == total(Seq::<u64>::empty()) + x);
    if b.len() > 0 {
        lemma_total_adds(a, b.drop_last(), x);
        assert((a + b).drop_last() =~= a + b.drop_last());
    } else {
        assert(a + b =~= a);
    }
}

/// Without a message replied to, the reply tells how to use the command it
/// answers, which it names.
pub proof fn lemma_ignore_usage_names_the_command()
    ensures
        ignore_text(true, None) == "You must reply to a message to ignore it."@,
        ignore_text(false, None) == "You must reply to a message to unignore it."@,
{
}

} // verus!
