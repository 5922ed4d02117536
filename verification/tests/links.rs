use martian_dedup::link::{clean_url, keep_whitelisted, link_keys, Link};
use martian_dedup::message::{links_from_entities, Entity};
use martian_dedup::whitelist::whitelist_url;
use martian_dedup::order::SortedTexts;

fn parse(text: &str) -> Link {
    let mut links = links_from_entities(&vec![Entity::Url(text.to_string())]);
    assert_eq!(links.len(), 1, "not a URL: {}", text);
    links.pop().unwrap()
}

fn cleaned(text: &str) -> String {
    clean_url(parse(text)).as_string()
}

#[test]
fn parsed_link_parts() {
    let l = parse("https://www.youtube.com/watch?v=abc&t=10#frag");
    assert_eq!(l.base, "https://www.youtube.com/watch");
    assert_eq!(l.host.as_deref(), Some("www.youtube.com"));
    assert_eq!(l.query.as_deref(), Some("v=abc&t=10"));
    assert_eq!(l.fragment.as_deref(), Some("frag"));
    assert_eq!(l.as_string(), "https://www.youtube.com/watch?v=abc&t=10#frag");
}

#[test]
fn parser_normalizes_text() {
    let l = parse("HTTPS://Example.COM");
    assert_eq!(l.as_string(), "https://example.com/");
    assert_eq!(l.query, None);
}

#[test]
fn youtube_keeps_only_video_id() {
    assert_eq!(
        cleaned("https://www.youtube.com/watch?v=dQw4w9WgXcQ&t=42&si=tracking"),
        "https://www.youtube.com/watch?v=dQw4w9WgXcQ"
    );
    assert_eq!(cleaned("https://youtube.com/watch?feature=share&v=x1"), "https://youtube.com/watch?v=x1");
}

#[test]
fn fragment_survives_cleaning() {
    assert_eq!(
        cleaned("https://www.youtube.com/watch?si=a&v=b#t=5"),
        "https://www.youtube.com/watch?v=b#t=5"
    );
    assert_eq!(cleaned("https://example.com/p?utm_source=x#top"), "https://example.com/p#top");
}

#[test]
fn unlisted_host_loses_whole_query() {
    assert_eq!(cleaned("https://example.com/a?utm_source=tg&id=7"), "https://example.com/a");
    assert_eq!(cleaned("https://m.youtube.com/watch?v=abc"), "https://m.youtube.com/watch");
}

#[test]
fn listed_host_without_listed_keys_loses_query() {
    assert_eq!(cleaned("https://youtube.com/watch?t=1&si=2"), "https://youtube.com/watch");
}

#[test]
fn playground_keeps_its_four_parameters_in_order() {
    assert_eq!(
        cleaned("https://play.rust-lang.org/?gist=g1&foo=1&version=stable&mode=debug&edition=2021"),
        "https://play.rust-lang.org/?gist=g1&version=stable&mode=debug&edition=2021"
    );
}

#[test]
fn link_without_query_is_unchanged() {
    assert_eq!(cleaned("https://example.com/a/b#c"), "https://example.com/a/b#c");
    assert_eq!(cleaned("https://www.youtube.com/"), "https://www.youtube.com/");
}

#[test]
fn kept_values_are_reencoded() {
    // `%20` is read as a space and written back as `+`
    assert_eq!(cleaned("https://youtube.com/watch?v=a%20b"), "https://youtube.com/watch?v=a+b");
}

#[test]
fn empty_query_is_dropped() {
    assert_eq!(cleaned("https://youtube.com/watch?"), "https://youtube.com/watch");
}

#[test]
fn opaque_path_loses_trailing_spaces_with_its_query() {
    let l = parse("mailto:a ?x=1");
    assert!(l.opaque_path);
    assert_eq!(l.base, "mailto:a ");
    assert_eq!(cleaned("mailto:a ?x=1"), "mailto:a");
    assert_eq!(cleaned("mailto:a ?x=1#f"), "mailto:a #f");
    assert!(!parse("https://example.com/").opaque_path);
}

#[test]
fn cleaning_twice_is_cleaning_once_on_whitelisted_host() {
    let once = clean_url(parse("https://play.rust-lang.org/?mode=a%20b&x=1&gist=%26%3D"));
    let twice = clean_url(once.duplicate());
    assert_eq!(once.as_string(), "https://play.rust-lang.org/?mode=a+b&gist=%26%3D");
    assert_eq!(twice.as_string(), once.as_string());
}

#[test]
fn cleaning_twice_is_cleaning_once_without_query() {
    let once = clean_url(parse("https://example.com/x?a=1"));
    let twice = clean_url(once.duplicate());
    assert_eq!(once.as_string(), twice.as_string());
    assert_eq!(twice.as_string(), "https://example.com/x");
}

#[test]
fn keys_are_sorted_and_distinct() {
    let links = vec![
        parse("https://b.example/"),
        parse("https://a.example/?utm=1"),
        parse("https://a.example/"),
        parse("https://youtube.com/watch?v=1&t=2"),
    ];
    assert_eq!(
        link_keys(links),
        vec!["https://a.example/", "https://b.example/", "https://youtube.com/watch?v=1"]
    );
}

#[test]
fn keys_ignore_order_and_repetition() {
    let a = vec![parse("https://x.example/1"), parse("https://x.example/2"), parse("https://x.example/1")];
    let b = vec![parse("https://x.example/2"), parse("https://x.example/1?ref=z")];
    assert_eq!(link_keys(a), link_keys(b));
}

#[test]
fn keys_of_no_links_are_empty() {
    assert!(link_keys(vec![]).is_empty());
}

#[test]
fn keys_order_is_string_order() {
    let links = vec![parse("https://a.example/b"), parse("https://a.example/B"), parse("https://a.example/")];
    assert_eq!(
        link_keys(links),
        vec!["https://a.example/", "https://a.example/B", "https://a.example/b"]
    );
}

#[test]
fn entities_give_links_in_order() {
    let text_link = parse("https://t.example/x");
    let entities = vec![
        Entity::Other,
        Entity::Url("https://u.example/".to_string()),
        Entity::Url("not a url".to_string()),
        Entity::TextLink(text_link),
        Entity::Other,
    ];
    let links = links_from_entities(&entities);
    let texts: Vec<String> = links.iter().map(|l| l.as_string()).collect();
    assert_eq!(texts, vec!["https://u.example/", "https://t.example/x"]);
}

#[test]
fn playground_links_are_whitelisted() {
    assert!(whitelist_url(&parse("https://play.rust-lang.org/?gist=1")));
    assert!(!whitelist_url(&parse("https://rust-lang.org/")));
    assert!(!whitelist_url(&parse("mailto:a@b.c")));
}

#[test]
fn sorted_texts_keep_each_text_once_in_order() {
    let mut set = SortedTexts::new();
    for t in ["b", "a", "ab", "b", "", "a"] {
        set.insert(t.to_string());
    }
    assert_eq!(set.into_texts(), vec!["", "a", "ab", "b"]);
}

#[test]
fn whitelisted_pairs_are_kept_in_order() {
    let pairs = vec![
        ("gist".to_string(), "1".to_string()),
        ("utm".to_string(), "x".to_string()),
        ("mode".to_string(), "debug".to_string()),
        ("gist".to_string(), "2".to_string()),
    ];
    let host = Some("play.rust-lang.org".to_string());
    assert_eq!(
        keep_whitelisted(&host, &pairs),
        vec![
            ("gist".to_string(), "1".to_string()),
            ("mode".to_string(), "debug".to_string()),
            ("gist".to_string(), "2".to_string()),
        ]
    );
    assert!(keep_whitelisted(&Some("example.com".to_string()), &pairs).is_empty());
    assert!(keep_whitelisted(&None, &pairs).is_empty());
}
