//! Decisions of duplicate detection: what the database answered for the
//! entities of a message, which earlier message to point the sender to, and
//! the reply that says so.

use vstd::prelude::*;

use crate::text::decimal;

verus! {

/// What the database holds for a link or a forward once it was entered for
/// a message: the message that first posted it, and whether it is ignored.
#[derive(Clone, Copy)]
pub struct EntityRecord {
    pub message_id: i32,
    pub ignore: bool,
}

/// The earlier message that a record points to, seen from message `message_id`:
/// none when the entity is ignored or was first posted by this very message.
pub open spec fn seen_in(record: EntityRecord, message_id: i32) -> Option<i32> {
    if !record.ignore && record.message_id != message_id {
        Some(record.message_id)
    } else {
        None
    }
}

/// The earlier message that `record` points to, seen from message `message_id`.
pub fn seen_before(record: &EntityRecord, message_id: i32) -> (r: Option<i32>)
    ensures
        r == seen_in(*record, message_id),
{
    if !record.ignore && record.message_id != message_id {
        Some(record.message_id)
    } else {
        None
    }
}

/// The first record of `records`, in order, that points to an earlier message.
pub open spec fn first_seen(records: Seq<EntityRecord>, message_id: i32) -> Option<i32>
    decreases records.len(),
{
    if records.len() == 0 {
        None
    } else {
        match seen_in(records[0], message_id) {
            Some(m) => Some(m),
            None => first_seen(records.drop_first(), message_id),
        }
    }
}

/// One step of scanning the records of a message's links: the message found
/// so far stays; otherwise `record` may supply one.
pub fn note_record(found: Option<i32>, record: &EntityRecord, message_id: i32) -> (r: Option<
    i32,
>)
    ensures
        r == match found {
            Some(m) => Some(m),
            None => seen_in(*record, message_id),
        },
{
    match found {
        Some(m) => Some(m),
        None => seen_before(record, message_id),
    }
}

/// The earlier message that the records of a message's links point to: that
/// of the first record, in order, that points to one.
pub fn first_seen_before(records: &Vec<EntityRecord>, message_id: i32) -> (r: Option<i32>)
    ensures
        r == first_seen(records@, message_id),
{
    let mut found: Option<i32> = None;
    let mut i: usize = 0;
    assert(records@.skip(0) =~= records@);
    while i < records.len()
        invariant
            i <= records.len(),
            first_seen(records@, message_id) == match found {
                Some(m) => Some(m),
                None => first_seen(records@.skip(i as int), message_id),
            },
        decreases records.len() - i,
    {
        assert(records@.skip(i as int).drop_first() =~= records@.skip(i + 1));
        assert(records@.skip(i as int)[0] == records@[i as int]);
        found = note_record(found, &records[i], message_id);
        i = i + 1;
    }
    assert(records@.skip(i as int).len() == 0);
    found
}

/// Scanning records with `note_record` from nothing ends with `first_seen`.
pub open spec fn scan(found: Option<i32>, records: Seq<EntityRecord>, message_id: i32) -> Option<
    i32,
>
    decreases records.len(),
{
    if records.len() == 0 {
        found
    } else {
        scan(
            match found {
                Some(m) => Some(m),
                None => seen_in(records[0], message_id),
            },
            records.drop_first(),
            message_id,
        )
    }
}

/// Entering the records one at a time with `note_record` finds the same
/// earlier message as `first_seen_before` does at once.
pub proof fn lemma_scan_finds_first(records: Seq<EntityRecord>, message_id: i32)
    ensures
        scan(None, records, message_id) == first_seen(records, message_id),
    decreases records.len(),
{
    if records.len() > 0 {
        match seen_in(records[0], message_id) {
            Some(m) => lemma_scan_keeps(m, records.drop_first(), message_id),
            None => lemma_scan_finds_first(records.drop_first(), message_id),
        }
    }
}

proof fn lemma_scan_keeps(m: i32, records: Seq<EntityRecord>, message_id: i32)
    ensures
        scan(Some(m), records, message_id) == Some(m),
    decreases records.len(),
{
    if records.len() > 0 {
        lemma_scan_keeps(m, records.drop_first(), message_id);
    }
}

/// The message that duplicate detection reports is never the message itself,
/// and it comes from a record that is not ignored.
pub proof fn lemma_first_seen_is_earlier(records: Seq<EntityRecord>, message_id: i32)
    ensures
        first_seen(records, message_id) matches Some(m) ==> m != message_id && exists|i: int|
            0 <= i < records.len() && (#[trigger] records[i]).message_id == m && !records[i].ignore,
    decreases records.len(),
{
    if records.len() > 0 {
        lemma_first_seen_is_earlier(records.drop_first(), message_id);
        if seen_in(records[0], message_id) is None {
            if let Some(m) = first_seen(records, message_id) {
                let i = choose|i: int|
                    0 <= i < records.drop_first().len() && (#[trigger] records.drop_first()[i]).message_id
                        == m && !records.drop_first()[i].ignore;
                assert(records[i + 1] == records.drop_first()[i]);
            }
        } else {
            assert(records[0].message_id == first_seen(records, message_id)->0);
        }
    }
}

/// Whenever some record points to an earlier message, duplicate detection
/// reports one.
pub proof fn lemma_first_seen_complete(records: Seq<EntityRecord>, message_id: i32, i: int)
    requires
        0 <= i < records.len(),
        seen_in(records[i], message_id) is Some,
    ensures
        first_seen(records, message_id) is Some,
    decreases i,
{
    if i > 0 && seen_in(records[0], message_id) is None {
        assert(records.drop_first()[i - 1] == records[i]);
        lemma_first_seen_complete(records.drop_first(), message_id, i - 1);
    }
}

/// The identity of a forwarded message: the channel it came from and its id
/// there, when the message says both.
pub fn forward_key(forward_message_id: Option<i32>, forward_chat_id: Option<i64>) -> (r: Option<
    (i64, i32),
>)
    ensures
        r == match (forward_message_id, forward_chat_id) {
            (Some(m), Some(c)) => Some((c, m)),
            _ => None,
        },
{
    match forward_message_id {
        Some(m) => match forward_chat_id {
            Some(c) => Some((c, m)),
            None => None,
        },
        None => None,
    }
}

/// The closest earlier image that the database found for a picture: how many
/// bits its hash differs in, the message that posted it, and whether it is ignored.
#[derive(Clone, Copy)]
pub struct ImageRecord {
    pub dist: i64,
    pub message_id: i32,
    pub ignore: bool,
}

/// What to do with a picture: whether to enter its hash, and the earlier
/// message to point the sender to.
pub struct ImageDecision {
    pub insert: bool,
    pub seen: Option<i32>,
}

/// A picture is entered unless an image with the very same hash is found.
pub open spec fn image_insert(record: Option<ImageRecord>) -> bool {
    match record {
        Some(x) => x.dist != 0,
        None => true,
    }
}

/// The earlier message reported for a picture: that of the closest image
/// found, unless that image is ignored.
pub open spec fn image_report(record: Option<ImageRecord>) -> Option<i32> {
    match record {
        Some(x) => if x.ignore {
            None
        } else {
            Some(x.message_id)
        },
        None => None,
    }
}

/// Decides on a picture from the closest image found: a picture that matches
/// no image exactly is entered; an image that is not ignored is reported.
pub fn image_decision(record: Option<ImageRecord>) -> (r: ImageDecision)
    ensures
        r.insert == image_insert(record),
        r.seen == image_report(record),
        r.insert <==> !(record matches Some(x) && x.dist == 0),
{
    match record {
        None => ImageDecision { insert: true, seen: None },
        Some(x) => ImageDecision {
            insert: x.dist != 0,
            seen: if x.ignore {
                None
            } else {
                Some(x.message_id)
            },
        },
    }
}

/// The earlier message reported for a message: that of its links, else that
/// of its forward, else that of its picture.
pub fn first_report(link: Option<i32>, forward: Option<i32>, image: Option<i32>) -> (r: Option<i32>)
    ensures
        r == match link {
            Some(m) => Some(m),
            None => match forward {
                Some(m) => Some(m),
                None => image,
            },
        },
{
    match link {
        Some(m) => Some(m),
        None => match forward {
            Some(m) => Some(m),
            None => image,
        },
    }
}

/// The reply to a duplicate: "seen it", followed by a link to the earlier
/// message where there is one.
pub open spec fn seen_text(link: Option<Seq<char>>) -> Seq<char> {
    match link {
        Some(l) => "看过了: "@ + l,
        None => "看过了"@,
    }
}

/// The text of an optional `&str`.
pub open spec fn opt_str(o: Option<&str>) -> Option<Seq<char>> {
    match o {
        Some(s) => Some(s@),
        None => None,
    }
}

/// The reply to a duplicate, given the link to the earlier message if any.
pub fn seen_reply_body(link: Option<&str>) -> (r: String)
    ensures
        r@ == seen_text(opt_str(link)),
{
    match link {
        Some(l) => {
            let mut r = String::from_str("看过了: ");
            r.append(l);
            r
        },
        None => String::from_str("看过了"),
    }
}

/// The lowest chat id of a channel or supergroup in the Bot API.
pub open spec fn min_channel_id() -> int {
    -1997852516352
}

/// The highest chat id of a channel or supergroup in the Bot API.
pub open spec fn max_channel_id() -> int {
    -1000000000000
}

/// The highest chat id of a user in the Bot API.
pub open spec fn max_user_id() -> int {
    0x100_0000_0000 - 1
}

/// A chat id that the Bot API can hand out: a channel, a group or a user.
pub open spec fn valid_chat_id(chat_id: i64) -> bool {
    min_channel_id() <= chat_id <= max_user_id()
}

/// A chat id of a channel or supergroup, the chats whose messages have links.
pub open spec fn is_channel_id(chat_id: i64) -> bool {
    min_channel_id() <= chat_id <= max_channel_id()
}

/// The decimal rendering of an integer, with a `-` before a negative one.
pub open spec fn int_text(i: int) -> Seq<char> {
    if i < 0 {
        seq!['-'] + decimal((-i) as nat)
    } else {
        decimal(i as nat)
    }
}

/// A public chat name made only of ASCII letters, digits and underscores,
/// as Telegram usernames are.
pub open spec fn plain_username(u: Seq<char>) -> bool {
    &&& u.len() > 0
    &&& forall|i: int|
        0 <= i < u.len() ==> {
            let c = #[trigger] u[i];
            ('a' <= c && c <= 'z') || ('A' <= c && c <= 'Z') || ('0' <= c && c <= '9') || c == '_'
        }
}

/// The link to message `message_id` of a private channel or supergroup.
pub open spec fn private_link(chat_id: i64, message_id: i32) -> Seq<char> {
    "https://t.me/c/"@ + decimal((max_channel_id() - chat_id) as nat) + "/"@ + int_text(
        message_id as int,
    )
}

/// The link to message `message_id` of the public chat `username`.
pub open spec fn public_link(username: Seq<char>, message_id: i32) -> Seq<char> {
    "https://t.me/"@ + username + "/"@ + int_text(message_id as int)
}

/// The `t.me` link that `teloxide`'s `Message::url_of` makes for message
/// `message_id` of a channel or supergroup.
pub uninterp spec fn t_me_link(chat_id: i64, username: Option<Seq<char>>, message_id: i32) -> Seq<
    char,
>;

/// The link to a message, made by `teloxide`'s `Message::url_of`: none for a
/// private chat or a basic group, else the `t.me` link believed to be
/// `t_me_link` of the arguments. Its source formats
/// `https://t.me/{username}/{message_id}` for a public chat and
/// `https://t.me/c/{bare id}/{message_id}` for a private one, where the bare id
/// is `-1000000000000 - chat_id`, and parses the text as a URL; for a plain
/// username, and for no username, parsing leaves that text as it is, which the
/// last two clauses state. For other usernames the link is left unstated.
/// `url_of` panics on an id outside the ranges of the Bot API, hence the
/// requirement.
#[verifier::external_body]
fn message_url(chat_id: i64, username: Option<&str>, message_id: i32) -> (r: Option<String>)
    requires
        valid_chat_id(chat_id),
    ensures
        r is Some <==> is_channel_id(chat_id),
        r matches Some(s) ==> s@ == t_me_link(chat_id, opt_str(username), message_id),
        r matches Some(s) ==> username is None ==> s@ == private_link(chat_id, message_id),
        r matches Some(s) ==> (username matches Some(u) && plain_username(u@)) ==> s@
            == public_link(username->0@, message_id),
{
    teloxide::types::Message::url_of(
        teloxide::types::ChatId(chat_id),
        username,
        teloxide::types::MessageId(message_id),
    ).map(String::from)
}

/// The link to message `message_id` of a chat, where the chat has links.
pub open spec fn message_link(chat_id: i64, username: Option<Seq<char>>, message_id: i32) -> Option<
    Seq<char>,
> {
    if is_channel_id(chat_id) {
        Some(t_me_link(chat_id, username, message_id))
    } else {
        None
    }
}

/// The reply that points the sender of a duplicate to the earlier message
/// `seen_message_id` of chat `chat_id`.
pub fn seen_before_reply(chat_id: i64, chat_username: Option<&str>, seen_message_id: i32) -> (r:
    String)
    requires
        valid_chat_id(chat_id),
    ensures
        r@ == seen_text(message_link(chat_id, opt_str(chat_username), seen_message_id)),
        is_channel_id(chat_id) && chat_username is None ==> r@ == seen_text(
            Some(private_link(chat_id, seen_message_id)),
        ),
        is_channel_id(chat_id) && (chat_username matches Some(u) && plain_username(u@)) ==> r@
            == seen_text(Some(public_link(chat_username->0@, seen_message_id))),
{
    let link = message_url(chat_id, chat_username, seen_message_id);
    match link {
        Some(l) => seen_reply_body(Some(l.as_str())),
        None => seen_reply_body(None),
    }
}

/// An entity or a picture marked as ignored is never reported.
pub proof fn lemma_ignored_never_reported(record: EntityRecord, image: ImageRecord, message_id: i32)
    ensures
        record.ignore ==> seen_in(record, message_id) is None,
        image.ignore ==> image_report(Some(image)) is None,
{
}

/// A picture's hash is entered exactly when no image is found or the closest
/// one differs from it; whether that image is ignored plays no part, so
/// flipping its flag leaves the decision to enter as it is.
pub proof fn lemma_image_insert_ignores_flag(image: ImageRecord)
    ensures
        image_insert(None),
        image_insert(Some(image)) <==> image.dist != 0,
        image_insert(Some(image)) == image_insert(
            Some(ImageRecord { dist: image.dist, message_id: image.message_id, ignore: !image.ignore }),
        ),
{
}

/// A record points to an earlier message exactly when it is not ignored and
/// was first posted by another message, and then to the message that posted it.
pub proof fn lemma_seen_in_exact(record: EntityRecord, message_id: i32)
    ensures
        seen_in(record, message_id) is Some <==> (!record.ignore && record.message_id != message_id),
        seen_in(record, message_id) matches Some(m) ==> m == record.message_id,
{
}

/// The message reported for a message's links comes from the first record,
/// in order, that points to an earlier message: no record before it does.
pub proof fn lemma_first_seen_is_first(records: Seq<EntityRecord>, message_id: i32)
    ensures
        first_seen(records, message_id) matches Some(m) ==> exists|i: int|
            0 <= i < records.len() && seen_in(#[trigger] records[i], message_id) == Some(m) && forall|
                j: int,
            |
                0 <= j < i ==> seen_in(#[trigger] records[j], message_id) is None,
        first_seen(records, message_id) is None ==> forall|j: int|
            0 <= j < records.len() ==> seen_in(#[trigger] records[j], message_id) is None,
    decreases records.len(),
{
    if records.len() > 0 {
        let rest = records.drop_first();
        lemma_first_seen_is_first(rest, message_id);
        if seen_in(records[0], message_id) is None {
            if let Some(m) = first_seen(records, message_id) {
                let i = choose|i: int|
                    0 <= i < rest.len() && seen_in(#[trigger] rest[i], message_id) == Some(m)
                        && forall|j: int| 0 <= j < i ==> seen_in(#[trigger] rest[j], message_id) is None;
                assert(records[i + 1] == rest[i]);
                assert forall|j: int| 0 <= j < i + 1 implies seen_in(#[trigger] records[j], message_id) is None by {
                    if j > 0 {
                        assert(records[j] == rest[j - 1]);
                    }
                }
            } else {
                assert forall|j: int| 0 <= j < records.len() implies seen_in(#[trigger] records[j], message_id) is None by {
                    if j > 0 {
                        assert(records[j] == rest[j - 1]);
                    }
                }
            }
        } else {
            assert(seen_in(records[0], message_id) == first_seen(records, message_id));
        }
    }
}

/// A picture that is found and not ignored is reported, with the message
/// that posted it, however far its hash is; an ignored one never is.
pub proof fn lemma_image_report_exact(image: ImageRecord, dist: i64)
    ensures
        image_report(None) is None,
        image_report(Some(image)) == (if image.ignore {
            None
        } else {
            Some(image.message_id)
        }),
        image_report(Some(image)) == image_report(
            Some(ImageRecord { dist, message_id: image.message_id, ignore: image.ignore }),
        ),
{
}

/// The reply to a duplicate is "seen it", and with a link it is that text
/// followed by ": " and the link.
pub proof fn lemma_seen_text_appends_link(link: Seq<char>)
    ensures
        seen_text(None) == "看过了"@,
        seen_text(Some(link)) == seen_text(None) + ": "@ + link,
{
    reveal_strlit("看过了: ");
    reveal_strlit("看过了");
    reveal_strlit(": ");
    assert("看过了: "@ =~= "看过了"@ + ": "@);
}

} // verus!
