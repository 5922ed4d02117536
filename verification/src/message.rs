//! What the bot reads from a message: the links among its entities and the
//! photo size to download.

use vstd::prelude::*;

use crate::link::{link_views, parse_url, parsed_url, Link, LinkView};

verus! {

/// An entity of a message, as far as links go.
pub enum Entity {
    /// A URL written out in the text: the text of the entity.
    Url(String),
    /// A text with a link behind it: the link.
    TextLink(Link),
    /// Any other entity.
    Other,
}

/// The links that the entities `es` carry, in order: a written URL counts
/// where `url::Url::parse` accepts its text; a text link always counts.
pub open spec fn entity_links(es: Seq<Entity>) -> Seq<LinkView>
    decreases es.len(),
{
    if es.len() == 0 {
        seq![]
    } else {
        let rest = entity_links(es.drop_last());
        match es.last() {
            Entity::Url(text) => match parsed_url(text@) {
                Some(v) => rest.push(v),
                None => rest,
            },
            Entity::TextLink(l) => rest.push(l@),
            Entity::Other => rest,
        }
    }
}

/// The links of a message, from its entities.
pub fn links_from_entities(entities: &Vec<Entity>) -> (r: Vec<Link>)
    ensures
        link_views(r@) == entity_links(entities@),
{
    let mut r: Vec<Link> = Vec::new();
    let mut i: usize = 0;
    while i < entities.len()
        invariant
            i <= entities.len(),
            link_views(r@) == entity_links(entities@.take(i as int)),
        decreases entities.len() - i,
    {
        assert(entities@.take(i + 1).drop_last() =~= entities@.take(i as int));
        assert(entities@.take(i + 1).last() == entities@[i as int]);
        let ghost before = r@;
        match &entities[i] {
            Entity::Url(text) => {
                match parse_url(text.as_str()) {
                    Some(l) => {
                        r.push(l);
                        assert(link_views(r@) =~= link_views(before).push(r@.last()@));
                    },
                    None => {},
                }
            },
            Entity::TextLink(l) => {
                r.push(l.duplicate());
                assert(link_views(r@) =~= link_views(before).push(r@.last()@));
            },
            Entity::Other => {},
        }
        i = i + 1;
    }
    assert(entities@.take(entities.len() as int) =~= entities@);
    r
}

/// Whether an entity gives a link: a text link always does, a written URL
/// where `url::Url::parse` accepts its text.
pub open spec fn gives_link(e: Entity) -> bool {
    match e {
        Entity::Url(text) => parsed_url(text@) is Some,
        Entity::TextLink(_) => true,
        Entity::Other => false,
    }
}

/// The links of the first entities are the first links of all the entities.
pub proof fn lemma_entity_links_prefix(es: Seq<Entity>, j: int)
    requires
        0 <= j <= es.len(),
    ensures
        entity_links(es.take(j)).len() <= entity_links(es).len(),
        entity_links(es).take(entity_links(es.take(j)).len() as int) == entity_links(es.take(j)),
    decreases es.len() - j,
{
    if j == es.len() {
        assert(es.take(j) =~= es);
        assert(entity_links(es).take(entity_links(es).len() as int) =~= entity_links(es));
    } else {
        lemma_entity_links_prefix(es, j + 1);
        let a = entity_links(es.take(j));
        let b = entity_links(es.take(j + 1));
        assert(es.take(j + 1).drop_last() =~= es.take(j));
        assert(b == a || b == a.push(b.last()));
        let all = entity_links(es);
        if b != a {
            assert(all.take(a.len() as int) =~= all.take(b.len() as int).take(a.len() as int));
            assert(b.take(a.len() as int) =~= a);
        }
    }
}

/// Every text link gives its link, unchanged, right after the links of the
/// entities before it.
pub proof fn lemma_text_link_kept(es: Seq<Entity>, i: int)
    requires
        0 <= i < es.len(),
        es[i] is TextLink,
    ensures
        entity_links(es.take(i + 1)) == entity_links(es.take(i)).push(es[i]->TextLink_0@),
        entity_links(es)[entity_links(es.take(i)).len() as int] == es[i]->TextLink_0@,
{
    assert(es.take(i + 1).drop_last() =~= es.take(i));
    assert(es.take(i + 1).last() == es[i]);
    lemma_entity_links_prefix(es, i + 1);
    let a = entity_links(es.take(i));
    let all = entity_links(es);
    assert(all.take(a.len() + 1int)[a.len() as int] == all[a.len() as int]);
}

/// A message has one link for each entity that gives one: each text link and
/// each written URL that parses.
pub proof fn lemma_entity_links_count(es: Seq<Entity>)
    ensures
        entity_links(es).len() == es.filter(|e: Entity| gives_link(e)).len(),
    decreases es.len(),
{
    reveal(Seq::filter);
    if es.len() > 0 {
        lemma_entity_links_count(es.drop_last());
    }
}

/// The dimensions of one size of a photo.
#[derive(Clone, Copy)]
pub struct PhotoDims {
    pub width: u32,
    pub height: u32,
}

/// The area of a photo size.
pub open spec fn area(p: PhotoDims) -> int {
    p.height * p.width
}

/// The size to download among the sizes of a photo: one of largest area,
/// the last such one (as `Iterator::max_by_key` picks), or none for no size.
/// Areas are computed in `u32`, the type of the dimensions, hence the bound.
pub fn largest_photo(sizes: &Vec<PhotoDims>) -> (r: Option<usize>)
    requires
        forall|k: int| 0 <= k < sizes.len() ==> area(#[trigger] sizes[k]) <= u32::MAX,
    ensures
        r is None <==> sizes.len() == 0,
        r matches Some(i) ==> {
            &&& i < sizes.len()
            &&& forall|j: int| 0 <= j < sizes.len() ==> area(#[trigger] sizes[j]) <= area(sizes[i as int])
            &&& forall|j: int| i < j < sizes.len() ==> area(#[trigger] sizes[j]) < area(sizes[i as int])
        },
{
    if sizes.len() == 0 {
        return None;
    }
    let mut best: usize = 0;
    let mut best_area: u32 = sizes[0].height * sizes[0].width;
    let mut i: usize = 1;
    while i < sizes.len()
        invariant
            1 <= i <= sizes.len(),
            best < i,
            best_area == area(sizes[best as int]),
            forall|k: int| 0 <= k < sizes.len() ==> area(#[trigger] sizes[k]) <= u32::MAX,
            forall|j: int| 0 <= j < i ==> area(#[trigger] sizes[j]) <= area(sizes[best as int]),
            forall|j: int| best < j < i ==> area(#[trigger] sizes[j]) < area(sizes[best as int]),
        decreases sizes.len() - i,
    {
        assert(area(sizes[i as int]) <= u32::MAX);
        let a = sizes[i].height * sizes[i].width;
        if a >= best_area {
            best = i;
            best_area = a;
        }
        i = i + 1;
    }
    Some(best)
}

} // verus!
