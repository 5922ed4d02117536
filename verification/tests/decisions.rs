use martian_dedup::dedup::{
    first_report, first_seen_before, forward_key, image_decision, note_record, seen_before,
    seen_before_reply, seen_reply_body, EntityRecord, ImageRecord,
};

fn rec(message_id: i32, ignore: bool) -> EntityRecord {
    EntityRecord { message_id, ignore }
}

#[test]
fn record_of_other_message_is_reported() {
    assert_eq!(seen_before(&rec(5, false), 9), Some(5));
}

#[test]
fn record_of_same_message_is_not_reported() {
    assert_eq!(seen_before(&rec(9, false), 9), None);
}

#[test]
fn ignored_record_is_not_reported() {
    assert_eq!(seen_before(&rec(5, true), 9), None);
}

#[test]
fn first_reporting_record_wins() {
    let records = vec![rec(9, false), rec(3, true), rec(4, false), rec(2, false)];
    assert_eq!(first_seen_before(&records, 9), Some(4));
    assert_eq!(first_seen_before(&vec![], 9), None);
    assert_eq!(first_seen_before(&vec![rec(9, false), rec(1, true)], 9), None);
}

#[test]
fn scanning_one_record_at_a_time_agrees() {
    let records = vec![rec(9, false), rec(3, true), rec(4, false), rec(2, false)];
    let mut found = None;
    for r in &records {
        found = note_record(found, r, 9);
    }
    assert_eq!(found, first_seen_before(&records, 9));
}

#[test]
fn forward_needs_both_ids() {
    assert_eq!(forward_key(Some(7), Some(-1001234)), Some((-1001234, 7)));
    assert_eq!(forward_key(Some(7), None), None);
    assert_eq!(forward_key(None, Some(-1001234)), None);
    assert_eq!(forward_key(None, None), None);
}

#[test]
fn new_picture_is_entered() {
    let d = image_decision(None);
    assert!(d.insert);
    assert_eq!(d.seen, None);
}

#[test]
fn similar_picture_is_entered_and_reported() {
    let d = image_decision(Some(ImageRecord { dist: 3, message_id: 11, ignore: false }));
    assert!(d.insert);
    assert_eq!(d.seen, Some(11));
}

#[test]
fn same_picture_is_not_entered_again() {
    let d = image_decision(Some(ImageRecord { dist: 0, message_id: 11, ignore: false }));
    assert!(!d.insert);
    assert_eq!(d.seen, Some(11));
}

#[test]
fn ignored_picture_is_not_reported() {
    let d = image_decision(Some(ImageRecord { dist: 0, message_id: 11, ignore: true }));
    assert!(!d.insert);
    assert_eq!(d.seen, None);
}

#[test]
fn links_beat_forwards_beat_pictures() {
    assert_eq!(first_report(Some(1), Some(2), Some(3)), Some(1));
    assert_eq!(first_report(None, Some(2), Some(3)), Some(2));
    assert_eq!(first_report(None, None, Some(3)), Some(3));
    assert_eq!(first_report(None, None, None), None);
}

#[test]
fn reply_body_with_and_without_link() {
    assert_eq!(seen_reply_body(Some("https://t.me/x/1")), "看过了: https://t.me/x/1");
    assert_eq!(seen_reply_body(None), "看过了");
}

#[test]
fn reply_links_public_supergroup_message() {
    assert_eq!(
        seen_before_reply(-1001234567890, Some("rustlang_cn"), 42),
        "看过了: https://t.me/rustlang_cn/42"
    );
}

#[test]
fn reply_links_private_supergroup_message() {
    assert_eq!(seen_before_reply(-1001234567890, None, 42), "看过了: https://t.me/c/1234567890/42");
}

#[test]
fn reply_without_link_in_group_and_private_chat() {
    assert_eq!(seen_before_reply(-4242, Some("ignored"), 42), "看过了");
    assert_eq!(seen_before_reply(123456, None, 42), "看过了");
}
