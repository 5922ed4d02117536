//! Links found in messages, and the canonical form under which they are
//! remembered: tracking parameters stripped from the query.

use vstd::prelude::*;

use crate::order::{strictly_sorted, SortedTexts};
use crate::text::{chars_of, texts};

verus! {

/// A parsed URL, held as the parts that the bot reads.
///
/// Its serialization is `base`, then `?` and the query if there is one, then
/// `#` and the fragment if there is one.
pub struct Link {
    /// Everything before the query: scheme, authority and path.
    pub base: String,
    /// The host, where the URL has one.
    pub host: Option<String>,
    /// The query, without its leading `?`.
    pub query: Option<String>,
    /// The fragment, without its leading `#`.
    pub fragment: Option<String>,
    /// The path is opaque: the URL cannot be a base (such as `mailto:` or `data:` URLs).
    pub opaque_path: bool,
}

/// The parts of a link as texts.
pub struct LinkView {
    pub base: Seq<char>,
    pub host: Option<Seq<char>>,
    pub query: Option<Seq<char>>,
    pub fragment: Option<Seq<char>>,
    pub opaque_path: bool,
}

/// The text of an optional `String`.
pub open spec fn opt_text(o: Option<String>) -> Option<Seq<char>> {
    match o {
        Some(s) => Some(s@),
        None => None,
    }
}

/// The texts of a sequence of name/value pairs.
pub open spec fn pair_texts(s: Seq<(String, String)>) -> Seq<(Seq<char>, Seq<char>)> {
    s.map_values(|p: (String, String)| (p.0@, p.1@))
}

impl View for Link {
    type V = LinkView;

    open spec fn view(&self) -> LinkView {
        LinkView {
            base: self.base@,
            host: opt_text(self.host),
            query: opt_text(self.query),
            fragment: opt_text(self.fragment),
            opaque_path: self.opaque_path,
        }
    }
}

/// The views of a sequence of links.
pub open spec fn link_views(s: Seq<Link>) -> Seq<LinkView> {
    s.map_values(|l: Link| l@)
}

/// The serialization of a link.
pub open spec fn link_text(v: LinkView) -> Seq<char> {
    let with_query = match v.query {
        Some(q) => v.base + seq!['?'] + q,
        None => v.base,
    };
    match v.fragment {
        Some(f) => with_query + seq!['#'] + f,
        None => with_query,
    }
}

/// The serialization of a link is its base, then `?` and the query where it
/// has one, then `#` and the fragment where it has one.
pub proof fn lemma_link_text_parts(v: LinkView)
    ensures
        link_text(v).take(v.base.len() as int) == v.base,
        v.query is None && v.fragment is None ==> link_text(v) == v.base,
        v.query matches Some(q) ==> link_text(v)[v.base.len() as int] == '?' && link_text(v).subrange(
            v.base.len() + 1int,
            v.base.len() + 1int + q.len(),
        ) == q,
        v.fragment matches Some(f) ==> link_text(v).len() >= f.len() + 1 && link_text(v).skip(
            link_text(v).len() - f.len() - 1,
        ) == seq!['#'] + f,
        link_text(v).len() == v.base.len() + (match v.query {
            Some(q) => q.len() + 1,
            None => 0,
        }) + (match v.fragment {
            Some(f) => f.len() + 1,
            None => 0,
        }),
{
    let t = link_text(v);
    let wq = match v.query {
        Some(q) => v.base + seq!['?'] + q,
        None => v.base,
    };
    assert(wq.take(v.base.len() as int) =~= v.base);
    assert(t.take(v.base.len() as int) =~= v.base);
    if let Some(q) = v.query {
        assert(wq.subrange(v.base.len() + 1int, v.base.len() + 1int + q.len()) =~= q);
        assert(t.subrange(v.base.len() + 1int, v.base.len() + 1int + q.len()) =~= q);
    }
    if let Some(f) = v.fragment {
        assert(t.skip(t.len() - f.len() - 1) =~= seq!['#'] + f);
    }
}

fn clone_opt(o: &Option<String>) -> (r: Option<String>)
    ensures
        opt_text(r) == opt_text(*o),
{
    match o {
        Some(s) => Some(s.clone()),
        None => None,
    }
}

impl Link {
    /// A copy of this link.
    pub fn duplicate(&self) -> (r: Link)
        ensures
            r@ == self@,
    {
        Link {
            base: self.base.clone(),
            host: clone_opt(&self.host),
            query: clone_opt(&self.query),
            fragment: clone_opt(&self.fragment),
            opaque_path: self.opaque_path,
        }
    }

    /// The serialization of this link, as `Url::as_str` gives it.
    pub fn as_string(&self) -> (r: String)
        ensures
            r@ == link_text(self@),
    {
        let mut r = self.base.clone();
        match &self.query {
            Some(q) => {
                r.append("?");
                r.append(q.as_str());
            },
            None => {},
        }
        match &self.fragment {
            Some(f) => {
                r.append("#");
                r.append(f.as_str());
            },
            None => {},
        }
        proof {
            reveal_strlit("?");
            reveal_strlit("#");
        }
        r
    }
}

/// The parts of the URL that `url::Url::parse` makes of `text`, or `None`
/// where it refuses the text.
pub uninterp spec fn parsed_url(text: Seq<char>) -> Option<LinkView>;

/// The name/value pairs that `form_urlencoded::parse` reads from `query`.
pub uninterp spec fn form_pairs(query: Seq<char>) -> Seq<(Seq<char>, Seq<char>)>;

/// The text that `form_urlencoded::Serializer` writes for `pairs`.
pub uninterp spec fn form_text(pairs: Seq<(Seq<char>, Seq<char>)>) -> Seq<char>;

/// Parses `text` with `url::Url::parse` and takes the URL apart: the text up
/// to the end of the path, the host, the query, the fragment, and whether the
/// path is opaque (`Url::cannot_be_a_base`). The parts are believed to be what
/// `parsed_url` names; nothing more is claimed of them.
#[verifier::external_body]
pub(crate) fn parse_url(text: &str) -> (r: Option<Link>)
    ensures
        match r {
            Some(l) => parsed_url(text@) == Some(l@),
            None => parsed_url(text@) is None,
        },
{
    match url::Url::parse(text) {
        Ok(u) => Some(
            Link {
                base: u[..url::Position::AfterPath].to_string(),
                host: u.host_str().map(str::to_string),
                query: u.query().map(str::to_string),
                fragment: u.fragment().map(str::to_string),
                opaque_path: u.cannot_be_a_base(),
            },
        ),
        Err(_) => None,
    }
}

/// Reads the name/value pairs of a query with `form_urlencoded::parse`
/// (what `Url::query_pairs` does), believed to be `form_pairs(query)`.
#[verifier::external_body]
fn parse_form(query: &str) -> (r: Vec<(String, String)>)
    ensures
        pair_texts(r@) == form_pairs(query@),
{
    url::form_urlencoded::parse(query.as_bytes()).into_owned().collect()
}

/// Writes `pairs` as a query with `form_urlencoded::Serializer` (what
/// `Url::query_pairs_mut().clear().extend_pairs(..)` puts after the `?`),
/// believed to be `form_text(pairs)`. In the source, each name and value is
/// written with `byte_serialize` (ASCII letters, digits and `*-._` as they
/// are, a space as `+`, every other byte as `%XX`), a name and its value
/// joined by `=` and pairs by `&`; `form_urlencoded::parse` splits at `&` and
/// at the first `=`, and turns `+` and `%XX` back into those bytes, which
/// were UTF-8. So reading the text back gives the same pairs, as the second
/// clause states; and a pair always writes its `=`, so the text of some
/// pairs is never empty.
#[verifier::external_body]
fn serialize_form(pairs: &Vec<(String, String)>) -> (r: String)
    ensures
        r@ == form_text(pair_texts(pairs@)),
        form_pairs(r@) == pair_texts(pairs@),
        pairs@.len() > 0 ==> r@.len() > 0,
{
    url::form_urlencoded::Serializer::new(String::new()).extend_pairs(pairs.iter()).finish()
}

/// The hosts whose query keeps some parameters, each with the names it keeps.
pub open spec fn query_whitelist() -> Seq<(Seq<char>, Seq<Seq<char>>)> {
    seq![
        ("youtube.com"@, seq!["v"@]),
        ("www.youtube.com"@, seq!["v"@]),
        ("play.rust-lang.org"@, seq!["version"@, "mode"@, "edition"@, "gist"@]),
    ]
}

/// The names kept for `host`: those of the first entry of `table` for it.
pub open spec fn keys_for(table: Seq<(Seq<char>, Seq<Seq<char>>)>, host: Seq<char>) -> Option<
    Seq<Seq<char>>,
>
    decreases table.len(),
{
    if table.len() == 0 {
        None
    } else if table[0].0 == host {
        Some(table[0].1)
    } else {
        keys_for(table.drop_first(), host)
    }
}

/// The names kept for a link to `host`; `None` where the host is not whitelisted.
pub open spec fn host_keys(host: Option<Seq<char>>) -> Option<Seq<Seq<char>>> {
    match host {
        Some(h) => keys_for(query_whitelist(), h),
        None => None,
    }
}

/// The texts of an optional list of `String`s.
pub open spec fn opt_texts(o: Option<Vec<String>>) -> Option<Seq<Seq<char>>> {
    match o {
        Some(v) => Some(texts(v@)),
        None => None,
    }
}

/// A query parameter named `name` survives cleaning on a link to `host`.
pub open spec fn keeps(host: Option<Seq<char>>, name: Seq<char>) -> bool {
    match host_keys(host) {
        Some(keys) => keys.contains(name),
        None => false,
    }
}

/// The pairs of `pairs` that survive cleaning on a link to `host`, in order.
pub open spec fn kept_pairs(host: Option<Seq<char>>, pairs: Seq<(Seq<char>, Seq<char>)>) -> Seq<
    (Seq<char>, Seq<char>),
>
    decreases pairs.len(),
{
    if pairs.len() == 0 {
        seq![]
    } else {
        let rest = kept_pairs(host, pairs.drop_last());
        if keeps(host, pairs.last().0) {
            rest.push(pairs.last())
        } else {
            rest
        }
    }
}

/// `s` without the spaces at its end.
pub open spec fn trim_trailing_spaces(s: Seq<char>) -> Seq<char>
    decreases s.len(),
{
    if s.len() > 0 && s.last() == ' ' {
        trim_trailing_spaces(s.drop_last())
    } else {
        s
    }
}

/// The base left when the query is removed: an opaque path with neither
/// query nor fragment after it loses its trailing spaces, as `Url::set_query`
/// does.
pub open spec fn base_without_query(v: LinkView) -> Seq<char> {
    if v.opaque_path && v.fragment is None {
        trim_trailing_spaces(v.base)
    } else {
        v.base
    }
}

/// The cleaned form of a link: a link without query is left alone; otherwise
/// only the whitelisted parameters of the query stay, re-encoded, and the
/// query goes away when none stays.
pub open spec fn cleaned(v: LinkView) -> LinkView {
    match v.query {
        None => v,
        Some(q) => {
            let kept = kept_pairs(v.host, form_pairs(q));
            LinkView {
                base: if kept.len() == 0 {
                    base_without_query(v)
                } else {
                    v.base
                },
                host: v.host,
                query: if kept.len() == 0 {
                    None
                } else {
                    Some(form_text(kept))
                },
                fragment: v.fragment,
                opaque_path: v.opaque_path,
            }
        },
    }
}

/// `s` without the spaces at its end.
fn strip_trailing_spaces(s: String) -> (r: String)
    ensures
        r@ == trim_trailing_spaces(s@),
{
    let c = chars_of(s.as_str());
    let mut k = c.len();
    assert(s@.take(k as int) =~= s@);
    while k > 0 && c[k - 1] == ' '
        invariant
            k <= c.len(),
            c@ == s@,
            trim_trailing_spaces(s@) == trim_trailing_spaces(s@.take(k as int)),
        decreases k,
    {
        assert(s@.take(k as int).drop_last() =~= s@.take(k - 1));
        k = k - 1;
    }
    let r = String::from_str(s.as_str().substring_char(0, k));
    assert(s@.subrange(0, k as int) =~= s@.take(k as int));
    r
}

/// Keeping the kept pairs again keeps them all.
pub proof fn lemma_kept_pairs_idempotent(host: Option<Seq<char>>, pairs: Seq<(Seq<char>, Seq<char>)>)
    ensures
        kept_pairs(host, kept_pairs(host, pairs)) == kept_pairs(host, pairs),
    decreases pairs.len(),
{
    if pairs.len() > 0 {
        lemma_kept_pairs_idempotent(host, pairs.drop_last());
        let rest = kept_pairs(host, pairs.drop_last());
        if keeps(host, pairs.last().0) {
            assert(rest.push(pairs.last()).drop_last() =~= rest);
        }
    }
}

fn whitelist_table() -> (t: Vec<(String, Vec<String>)>)
    ensures
        t@.map_values(|e: (String, Vec<String>)| (e.0@, texts(e.1@))) == query_whitelist(),
{
    let mut v_keys: Vec<String> = Vec::new();
    v_keys.push(String::from_str("v"));
    let mut v_keys2: Vec<String> = Vec::new();
    v_keys2.push(String::from_str("v"));
    let mut play_keys: Vec<String> = Vec::new();
    play_keys.push(String::from_str("version"));
    play_keys.push(String::from_str("mode"));
    play_keys.push(String::from_str("edition"));
    play_keys.push(String::from_str("gist"));
    let mut t: Vec<(String, Vec<String>)> = Vec::new();
    t.push((String::from_str("youtube.com"), v_keys));
    t.push((String::from_str("www.youtube.com"), v_keys2));
    t.push((String::from_str("play.rust-lang.org"), play_keys));
    proof {
        let tv = t@.map_values(|e: (String, Vec<String>)| (e.0@, texts(e.1@)));
        assert(texts(t@[0].1@) =~= seq!["v"@]);
        assert(texts(t@[1].1@) =~= seq!["v"@]);
        assert(texts(t@[2].1@) =~= seq!["version"@, "mode"@, "edition"@, "gist"@]);
        assert(tv =~= query_whitelist());
    }
    t
}

/// Whether `list` holds the text `x`.
fn contains_text(list: &Vec<String>, x: &String) -> (r: bool)
    ensures
        r == texts(list@).contains(x@),
{
    let mut i: usize = 0;
    while i < list.len()
        invariant
            i <= list.len(),
            forall|k: int| 0 <= k < i ==> list@[k]@ != x@,
        decreases list.len() - i,
    {
        if list[i] == *x {
            assert(texts(list@)[i as int] == x@);
            return true;
        }
        i = i + 1;
    }
    proof {
        if texts(list@).contains(x@) {
            let k = choose|k: int| 0 <= k < texts(list@).len() && texts(list@)[k] == x@;
            assert(list@[k]@ == x@);
        }
    }
    false
}

/// The names kept for the host of a link, looked up in the whitelist.
fn whitelisted_keys(host: &Option<String>) -> (r: Option<Vec<String>>)
    ensures
        opt_texts(r) == host_keys(opt_text(*host)),
{
    match host {
        None => None,
        Some(h) => {
            let mut table = whitelist_table();
            let ghost tv = table@.map_values(|e: (String, Vec<String>)| (e.0@, texts(e.1@)));
            let mut i: usize = 0;
            assert(tv.skip(0) =~= tv);
            while i < table.len()
                invariant
                    i <= table.len(),
                    tv == table@.map_values(|e: (String, Vec<String>)| (e.0@, texts(e.1@))),
                    tv == query_whitelist(),
                    opt_text(*host) == Some(h@),
                    keys_for(tv, h@) == keys_for(tv.skip(i as int), h@),
                decreases table.len() - i,
            {
                assert(tv.skip(i as int).drop_first() =~= tv.skip(i + 1));
                if table[i].0 == *h {
                    assert(tv.skip(i as int)[0] == tv[i as int]);
                    assert(tv[i as int].0 == h@);
                    assert(keys_for(tv.skip(i as int), h@) == Some(tv[i as int].1));
                    let keys = table.remove(i);
                    assert(texts(keys.1@) == tv[i as int].1);
                    assert(keys_for(query_whitelist(), h@) == Some(tv[i as int].1));
                    return Some(keys.1);
                }
                i = i + 1;
            }
            None
        },
    }
}

/// The pairs kept on a link are exactly those whose name is listed for its
/// host in `query_whitelist`, in their order: a pair stays if and only if
/// its name is in the host's entry.
pub proof fn lemma_kept_pairs_are_whitelisted(host: Option<Seq<char>>, pairs: Seq<(Seq<char>, Seq<char>)>)
    ensures
        kept_pairs(host, pairs) == pairs.filter(
            |p: (Seq<char>, Seq<char>)| host_keys(host) is Some && host_keys(host)->0.contains(p.0),
        ),
    decreases pairs.len(),
{
    reveal(Seq::filter);
    if pairs.len() > 0 {
        lemma_kept_pairs_are_whitelisted(host, pairs.drop_last());
    }
}

/// On a YouTube link only the `v` parameter survives, and every `v` does.
pub proof fn lemma_youtube_keeps_only_v(pairs: Seq<(Seq<char>, Seq<char>)>)
    ensures
        kept_pairs(Some("www.youtube.com"@), pairs) == pairs.filter(
            |p: (Seq<char>, Seq<char>)| p.0 == "v"@,
        ),
        kept_pairs(Some("youtube.com"@), pairs) == pairs.filter(
            |p: (Seq<char>, Seq<char>)| p.0 == "v"@,
        ),
{
    reveal_strlit("youtube.com");
    reveal_strlit("www.youtube.com");
    reveal_strlit("play.rust-lang.org");
    reveal_strlit("v");
    let w = query_whitelist();
    assert(w[0].0.len() != "www.youtube.com"@.len());
    assert(w.drop_first()[0].0 == "www.youtube.com"@);
    reveal_with_fuel(keys_for, 3);
    assert(host_keys(Some("www.youtube.com"@)) == Some(seq!["v"@]));
    assert(host_keys(Some("youtube.com"@)) == Some(seq!["v"@]));
    lemma_kept_pairs_are_whitelisted(Some("www.youtube.com"@), pairs);
    lemma_kept_pairs_are_whitelisted(Some("youtube.com"@), pairs);
    assert forall|n: Seq<char>| #[trigger] seq!["v"@].contains(n) <==> n == "v"@ by {
        if n == "v"@ {
            assert(seq!["v"@][0] == n);
        }
    }
    let f1 = |p: (Seq<char>, Seq<char>)| host_keys(Some("www.youtube.com"@)) is Some && host_keys(
        Some("www.youtube.com"@),
    )->0.contains(p.0);
    let f2 = |p: (Seq<char>, Seq<char>)| host_keys(Some("youtube.com"@)) is Some && host_keys(
        Some("youtube.com"@),
    )->0.contains(p.0);
    let g = |p: (Seq<char>, Seq<char>)| p.0 == "v"@;
    assert(f1 =~= g);
    assert(f2 =~= g);
}

/// Only YouTube links (with or without `www.`) and Rust playground links
/// keep parameters: `v` for the former, `version`, `mode`, `edition` and
/// `gist` for the latter; every other link, and one without host, keeps none.
pub proof fn lemma_whitelist_hosts(h: Seq<char>)
    ensures
        host_keys(None) is None,
        host_keys(Some(h)) == if h == "youtube.com"@ || h == "www.youtube.com"@ {
            Some(seq!["v"@])
        } else if h == "play.rust-lang.org"@ {
            Some(seq!["version"@, "mode"@, "edition"@, "gist"@])
        } else {
            None::<Seq<Seq<char>>>
        },
{
    reveal_strlit("youtube.com");
    reveal_strlit("www.youtube.com");
    reveal_strlit("play.rust-lang.org");
    reveal_with_fuel(keys_for, 4);
    let w = query_whitelist();
    assert(w.drop_first().drop_first().drop_first().len() == 0);
    assert(w.drop_first()[0] == w[1]);
    assert(w.drop_first().drop_first()[0] == w[2]);
    if h == "youtube.com"@ {
    } else if h == "www.youtube.com"@ {
        assert(w[0].0.len() != h.len());
    } else if h == "play.rust-lang.org"@ {
        assert(w[0].0.len() != h.len());
        assert(w[1].0.len() != h.len());
    }
}

/// Trimming keeps a prefix of the text that does not end in a space, and
/// drops only spaces.
pub proof fn lemma_trim_trailing_spaces(s: Seq<char>)
    ensures
        trim_trailing_spaces(s).len() <= s.len(),
        s.take(trim_trailing_spaces(s).len() as int) == trim_trailing_spaces(s),
        trim_trailing_spaces(s).len() > 0 ==> trim_trailing_spaces(s).last() != ' ',
        forall|i: int| trim_trailing_spaces(s).len() <= i < s.len() ==> #[trigger] s[i] == ' ',
    decreases s.len(),
{
    if s.len() > 0 && s.last() == ' ' {
        let p = s.drop_last();
        lemma_trim_trailing_spaces(p);
        let t = trim_trailing_spaces(p);
        assert(s.take(t.len() as int) =~= p.take(t.len() as int));
        assert forall|i: int| t.len() <= i < s.len() implies #[trigger] s[i] == ' ' by {
            if i < p.len() {
                assert(s[i] == p[i]);
            }
        }
    } else {
        assert(s.take(s.len() as int) =~= s);
    }
}

/// The pairs of `pairs` whose name is whitelisted for `host`, in order.
pub fn keep_whitelisted(host: &Option<String>, pairs: &Vec<(String, String)>) -> (r: Vec<
    (String, String),
>)
    ensures
        pair_texts(r@) == kept_pairs(opt_text(*host), pair_texts(pairs@)),
        pair_texts(r@) == pair_texts(pairs@).filter(
            |p: (Seq<char>, Seq<char>)| host_keys(opt_text(*host)) is Some && host_keys(
                opt_text(*host),
            )->0.contains(p.0),
        ),
{
    proof {
        lemma_kept_pairs_are_whitelisted(opt_text(*host), pair_texts(pairs@));
    }
    let keys = whitelisted_keys(host);
    let ghost pv = pair_texts(pairs@);
    let mut kept: Vec<(String, String)> = Vec::new();
    let mut i: usize = 0;
    while i < pairs.len()
        invariant
            i <= pairs.len(),
            pv == pair_texts(pairs@),
            opt_texts(keys) == host_keys(opt_text(*host)),
            pair_texts(kept@) == kept_pairs(opt_text(*host), pv.take(i as int)),
        decreases pairs.len() - i,
    {
        assert(pv.take(i + 1).drop_last() =~= pv.take(i as int));
        let keep = match &keys {
            Some(ks) => contains_text(ks, &pairs[i].0),
            None => false,
        };
        assert(keep == keeps(opt_text(*host), pv[i as int].0));
        if keep {
            let name = pairs[i].0.clone();
            let value = pairs[i].1.clone();
            kept.push((name, value));
            assert(pair_texts(kept@) =~= kept_pairs(opt_text(*host), pv.take(i as int)).push(
                pv[i as int],
            ));
        } else {
            assert(pair_texts(kept@) =~= kept_pairs(opt_text(*host), pv.take(i as int)));
        }
        i = i + 1;
    }
    assert(pv.take(pairs.len() as int) =~= pv);
    kept
}

/// Strips a link of its tracking parameters: without a query the link stays
/// as it is; otherwise only the parameters whitelisted for its host stay,
/// and the query goes away when none does. A query that stays is never
/// empty, and reading it back gives the kept pairs in their order.
pub fn clean_url(link: Link) -> (r: Link)
    ensures
        r@ == cleaned(link@),
        cleaned(r@) == r@,
        match link@.query {
            None => r@ == link@,
            Some(q) => match r@.query {
                None => kept_pairs(link@.host, form_pairs(q)).len() == 0,
                Some(nq) => nq.len() > 0 && form_pairs(nq) == kept_pairs(link@.host, form_pairs(q)),
            },
        },
{
    let Link { base, host, query, fragment, opaque_path } = link;
    match query {
        None => Link { base, host, query: None, fragment, opaque_path },
        Some(q) => {
            let pairs = parse_form(q.as_str());
            let kept = keep_whitelisted(&host, &pairs);
            if kept.len() == 0 {
                let base = if opaque_path && fragment.is_none() {
                    strip_trailing_spaces(base)
                } else {
                    base
                };
                Link { base, host, query: None, fragment, opaque_path }
            } else {
                let new_query = serialize_form(&kept);
                proof {
                    lemma_kept_pairs_idempotent(opt_text(host), pair_texts(pairs@));
                }
                Link { base, host, query: Some(new_query), fragment, opaque_path }
            }
        },
    }
}

/// The texts under which the links of a message are looked up: each link
/// cleaned and serialized, in increasing order, each text once (the order
/// and dedup of `Url`, whose comparison is that of its serialization).
pub fn link_keys(links: Vec<Link>) -> (r: Vec<String>)
    ensures
        strictly_sorted(texts(r@)),
        texts(r@).to_set() == link_views(links@).map_values(|v: LinkView| link_text(cleaned(v))).to_set(),
{
    let ghost want = link_views(links@).map_values(|v: LinkView| link_text(cleaned(v)));
    let mut set = SortedTexts::new();
    let mut links = links;
    let ghost all = links@;
    // links are taken from the back; the order of insertion does not matter
    while links.len() > 0
        invariant
            links.len() <= all.len(),
            want.len() == all.len(),
            links@ == all.take(links.len() as int),
            want == link_views(all).map_values(|v: LinkView| link_text(cleaned(v))),
            set.items().to_set() == want.skip(links.len() as int).to_set(),
        decreases links.len(),
    {
        let ghost n = links.len();
        let link = links.pop().unwrap();
        assert(link == all[n - 1]);
        let key = clean_url(link).as_string();
        set.insert(key);
        let ghost before = want.skip(n - 1);
        let ghost after = want.skip(n as int);
        assert forall|x: Seq<char>| #[trigger] before.contains(x) <==> (x == want[n
            - 1] || after.contains(x)) by {
            if before.contains(x) {
                let k = choose|k: int| 0 <= k < before.len() && before[k] == x;
                if k > 0 {
                    assert(after[k - 1] == x);
                }
            }
            if x == want[n - 1] {
                assert(before[0] == x);
            }
            if after.contains(x) {
                let k = choose|k: int| 0 <= k < after.len() && after[k] == x;
                assert(before[k + 1] == x);
            }
        }
        assert(want.skip(n - 1).to_set() =~= want.skip(n as int).to_set().insert(want[n - 1]));
        assert(links@ =~= all.take(links.len() as int));
    }
    assert(want.skip(0) =~= want);
    let r = set.into_texts();
    r
}

/// Cleaning leaves the host and fragment of a link as they are, and its
/// scheme, authority and path too, but for the trailing spaces of an opaque
/// path that loses its query and has no fragment; a link without query comes
/// out unchanged.
pub proof fn lemma_cleaning_keeps_location(v: LinkView)
    ensures
        cleaned(v).base == v.base || cleaned(v).base == base_without_query(v),
        !(v.opaque_path && v.fragment is None) ==> cleaned(v).base == v.base,
        cleaned(v).host == v.host,
        cleaned(v).fragment == v.fragment,
        v.query is None ==> cleaned(v) == v,
{
}

/// A link whose host has no whitelisted parameters loses its whole query.
pub proof fn lemma_unlisted_host_loses_query(v: LinkView)
    requires
        host_keys(v.host) is None,
    ensures
        cleaned(v).query is None,
{
    if let Some(q) = v.query {
        lemma_kept_pairs_unlisted(v.host, form_pairs(q));
    }
}

proof fn lemma_kept_pairs_unlisted(host: Option<Seq<char>>, pairs: Seq<(Seq<char>, Seq<char>)>)
    requires
        host_keys(host) is None,
    ensures
        kept_pairs(host, pairs).len() == 0,
    decreases pairs.len(),
{
    if pairs.len() > 0 {
        lemma_kept_pairs_unlisted(host, pairs.drop_last());
    }
}

/// Every pair kept by cleaning has a name whitelisted for the host, and no
/// more pairs are kept than there were.
pub proof fn lemma_kept_pairs_whitelisted(host: Option<Seq<char>>, pairs: Seq<(Seq<char>, Seq<char>)>)
    ensures
        kept_pairs(host, pairs).len() <= pairs.len(),
        forall|i: int|
            0 <= i < kept_pairs(host, pairs).len() ==> keeps(host, #[trigger] kept_pairs(host, pairs)[i].0),
        forall|i: int|
            0 <= i < kept_pairs(host, pairs).len() ==> pairs.contains(#[trigger] kept_pairs(host, pairs)[i]),
    decreases pairs.len(),
{
    if pairs.len() > 0 {
        lemma_kept_pairs_whitelisted(host, pairs.drop_last());
        let rest = kept_pairs(host, pairs.drop_last());
        assert forall|i: int| 0 <= i < kept_pairs(host, pairs).len() implies pairs.contains(
            #[trigger] kept_pairs(host, pairs)[i],
        ) by {
            if i < rest.len() {
                let k = choose|k: int| 0 <= k < pairs.drop_last().len() && pairs.drop_last()[k] == rest[i];
                assert(pairs[k] == rest[i]);
            } else {
                assert(pairs[pairs.len() - 1] == pairs.last());
            }
        }
    }
}

} // verus!
