//! Messages and links that are exempt from duplicate detection.

use vstd::prelude::*;

use crate::link::{Link, LinkView};
use crate::text::{has_prefix, starts_with};

verus! {

/// A rule that exempts a message, judged by its text.
pub trait MsgFilter {
    /// Whether the rule exempts a message whose text is `msg`.
    spec fn exempts(&self, msg: Seq<char>) -> bool;

    /// Tells whether the rule exempts the message `msg`.
    fn judge(&self, msg: &str) -> (r: bool)
        ensures
            r == self.exempts(msg@),
    ;
}

/// Exempts every message that begins with `prefix`.
pub struct PrefixFilter {
    pub prefix: String,
}

impl MsgFilter for PrefixFilter {
    open spec fn exempts(&self, msg: Seq<char>) -> bool {
        has_prefix(msg, self.prefix@)
    }

    fn judge(&self, msg: &str) -> (r: bool) {
        starts_with(msg, self.prefix.as_str())
    }
}

/// The prefix of the commands that an evaluation bot answers.
pub open spec fn eval_prefix() -> Seq<char> {
    seq!['/', 'e', 'v', 'a', 'l', ' ']
}

/// The message rules in force: messages addressed to an evaluation bot.
pub fn msg_filters() -> (fs: Vec<PrefixFilter>)
    ensures
        fs.len() == 1,
        fs[0].prefix@ == eval_prefix(),
{
    let prefix = String::from_str("/eval ");
    proof {
        reveal_strlit("/eval ");
        assert(prefix@ =~= eval_prefix());
    }
    let mut fs: Vec<PrefixFilter> = Vec::new();
    fs.push(PrefixFilter { prefix });
    fs
}

/// Whether a message with text `msg` is exempt: some message rule exempts it.
pub fn whitelist_msg(msg: &str) -> (r: bool)
    ensures
        r == has_prefix(msg@, eval_prefix()),
{
    let fs = msg_filters();
    let mut found = false;
    let mut i: usize = 0;
    while i < fs.len()
        invariant
            i <= fs.len(),
            fs.len() == 1,
            fs[0].prefix@ == eval_prefix(),
            found == exists|k: int| 0 <= k < i && #[trigger] fs[k].exempts(msg@),
        decreases fs.len() - i,
    {
        let hit = fs[i].judge(msg);
        found = found || hit;
        i = i + 1;
    }
    assert(found == fs[0].exempts(msg@));
    found
}

/// A rule that exempts a link.
pub trait UrlFilter {
    /// Whether the rule exempts the link `link`.
    spec fn exempts(&self, link: LinkView) -> bool;

    /// Tells whether the rule exempts `link`.
    fn judge(&self, link: &Link) -> (r: bool)
        ensures
            r == self.exempts(link@),
    ;
}

/// Exempts every link to the host `host`.
pub struct HostFilter {
    pub host: String,
}

impl UrlFilter for HostFilter {
    open spec fn exempts(&self, link: LinkView) -> bool {
        link.host == Some(self.host@)
    }

    fn judge(&self, link: &Link) -> (r: bool) {
        match &link.host {
            Some(h) => *h == self.host,
            None => false,
        }
    }
}

/// The host of the Rust playground.
pub open spec fn playground_host() -> Seq<char> {
    "play.rust-lang.org"@
}

/// The link rules in force: links to the Rust playground.
pub fn url_filters() -> (fs: Vec<HostFilter>)
    ensures
        fs.len() == 1,
        fs[0].host@ == playground_host(),
{
    let mut fs: Vec<HostFilter> = Vec::new();
    fs.push(HostFilter { host: String::from_str("play.rust-lang.org") });
    fs
}

/// Whether `link` is exempt: some link rule exempts it.
pub fn whitelist_url(link: &Link) -> (r: bool)
    ensures
        r == (link@.host == Some(playground_host())),
{
    let fs = url_filters();
    let mut found = false;
    let mut i: usize = 0;
    while i < fs.len()
        invariant
            i <= fs.len(),
            fs.len() == 1,
            fs[0].host@ == playground_host(),
            found == exists|k: int| 0 <= k < i && #[trigger] fs[k].exempts(link@),
        decreases fs.len() - i,
    {
        let hit = fs[i].judge(link);
        found = found || hit;
        i = i + 1;
    }
    assert(found == fs[0].exempts(link@));
    found
}

} // verus!
