//! The order of texts that `String` comparison uses, and sets of texts kept
//! in that order without repetition.

use vstd::prelude::*;

use crate::text::{chars_of, texts};

verus! {

/// `a` comes strictly before `b` in lexicographic order of characters,
/// which is the order of `String` comparison.
pub open spec fn text_less(a: Seq<char>, b: Seq<char>) -> bool
    decreases a.len(),
{
    if b.len() == 0 {
        false
    } else if a.len() == 0 {
        true
    } else if a[0] != b[0] {
        a[0] < b[0]
    } else {
        text_less(a.drop_first(), b.drop_first())
    }
}

/// Every text of `s` comes strictly before every later one.
pub open spec fn strictly_sorted(s: Seq<Seq<char>>) -> bool {
    forall|i: int, j: int| 0 <= i < j < s.len() ==> text_less(#[trigger] s[i], #[trigger] s[j])
}

/// No text comes before itself.
pub proof fn lemma_text_less_irreflexive(a: Seq<char>)
    ensures
        !text_less(a, a),
    decreases a.len(),
{
    if a.len() > 0 {
        lemma_text_less_irreflexive(a.drop_first());
    }
}

/// Of two different texts, one comes before the other.
pub proof fn lemma_text_less_total(a: Seq<char>, b: Seq<char>)
    requires
        a != b,
    ensures
        text_less(a, b) || text_less(b, a),
    decreases a.len(),
{
    if a.len() > 0 && b.len() > 0 && a[0] == b[0] {
        if a.drop_first() == b.drop_first() {
            assert(a =~= seq![a[0]] + a.drop_first());
            assert(b =~= seq![b[0]] + b.drop_first());
        }
        lemma_text_less_total(a.drop_first(), b.drop_first());
    } else if a.len() == 0 {
        assert(b.len() > 0) by {
            if b.len() == 0 {
                assert(a =~= b);
            }
        }
    }
}

/// No two texts come each before the other.
pub proof fn lemma_text_less_asymmetric(a: Seq<char>, b: Seq<char>)
    requires
        text_less(a, b),
    ensures
        !text_less(b, a),
    decreases a.len(),
{
    if a.len() > 0 && b.len() > 0 && a[0] == b[0] {
        lemma_text_less_asymmetric(a.drop_first(), b.drop_first());
    }
}

/// The order is transitive.
pub proof fn lemma_text_less_transitive(a: Seq<char>, b: Seq<char>, c: Seq<char>)
    requires
        text_less(a, b),
        text_less(b, c),
    ensures
        text_less(a, c),
    decreases a.len(),
{
    if a.len() > 0 && b.len() > 0 && c.len() > 0 && a[0] == b[0] && b[0] == c[0] {
        lemma_text_less_transitive(a.drop_first(), b.drop_first(), c.drop_first());
    }
}

/// Texts that agree on their first `i` characters compare as their rests do.
proof fn lemma_text_less_skip(a: Seq<char>, b: Seq<char>, i: int)
    requires
        0 <= i <= a.len(),
        i <= b.len(),
        a.take(i) == b.take(i),
    ensures
        text_less(a, b) == text_less(a.skip(i), b.skip(i)),
    decreases i,
{
    if i > 0 {
        assert(a[0] == a.take(i)[0]);
        assert(b[0] == b.take(i)[0]);
        assert(a.drop_first().take(i - 1) =~= a.take(i).drop_first());
        assert(b.drop_first().take(i - 1) =~= b.take(i).drop_first());
        lemma_text_less_skip(a.drop_first(), b.drop_first(), i - 1);
        assert(a.drop_first().skip(i - 1) =~= a.skip(i));
        assert(b.drop_first().skip(i - 1) =~= b.skip(i));
    } else {
        assert(a.skip(0) =~= a);
        assert(b.skip(0) =~= b);
    }
}

/// A text comes before every longer text that begins with it, and two texts
/// that first differ at position `i` are ordered as their characters there.
pub proof fn lemma_text_less_order(a: Seq<char>, b: Seq<char>, i: int)
    requires
        0 <= i <= a.len(),
        i <= b.len(),
        a.take(i) == b.take(i),
    ensures
        i == a.len() ==> (text_less(a, b) <==> a.len() < b.len()),
        i < a.len() && i < b.len() && a[i] != b[i] ==> (text_less(a, b) <==> a[i] < b[i]),
{
    lemma_text_less_skip(a, b, i);
    let x = a.skip(i);
    let y = b.skip(i);
    if i < a.len() && i < b.len() {
        assert(x[0] == a[i]);
        assert(y[0] == b[i]);
    }
}

/// Whether `a` comes strictly before `b`.
pub fn chars_less(a: &Vec<char>, b: &Vec<char>) -> (r: bool)
    ensures
        r == text_less(a@, b@),
{
    let mut i: usize = 0;
    while i < a.len() && i < b.len()
        invariant
            i <= a.len(),
            i <= b.len(),
            a@.take(i as int) == b@.take(i as int),
        decreases a.len() - i,
    {
        if a[i] != b[i] {
            proof {
                lemma_text_less_skip(a@, b@, i as int);
                assert(a@.skip(i as int)[0] == a@[i as int]);
                assert(b@.skip(i as int)[0] == b@[i as int]);
            }
            return a[i] < b[i];
        }
        assert(a@.take(i + 1) =~= a@.take(i as int).push(a@[i as int]));
        assert(b@.take(i + 1) =~= b@.take(i as int).push(b@[i as int]));
        i = i + 1;
    }
    proof {
        lemma_text_less_skip(a@, b@, i as int);
    }
    i < b.len()
}

/// Two strictly sorted sequences with the same texts are the same sequence.
pub proof fn lemma_sorted_same_set_equal(a: Seq<Seq<char>>, b: Seq<Seq<char>>)
    requires
        strictly_sorted(a),
        strictly_sorted(b),
        a.to_set() == b.to_set(),
    ensures
        a == b,
    decreases a.len(),
{
    if a.len() == 0 {
        if b.len() > 0 {
            assert(b.to_set().contains(b[0]));
            assert(!a.to_set().contains(b[0]));
        }
        assert(a =~= b);
    } else {
        assert(a.to_set().contains(a[0]));
        assert(b.to_set().contains(a[0]));
        let k = choose|k: int| 0 <= k < b.len() && b[k] == a[0];
        assert(b.contains(a[0]));
        assert(a.to_set().contains(b[0]));
        let m = choose|m: int| 0 <= m < a.len() && a[m] == b[0];
        if k > 0 {
            // b[0] < b[k] == a[0], and a[0] <= a[m] == b[0]
            assert(text_less(b[0], b[k]));
            if m > 0 {
                assert(text_less(a[0], a[m]));
                lemma_text_less_transitive(b[0], a[0], b[0]);
            }
            lemma_text_less_irreflexive(b[0]);
        }
        assert(b[0] == a[0]);
        let a1 = a.drop_first();
        let b1 = b.drop_first();
        assert forall|x: Seq<char>| a1.to_set().contains(x) <==> b1.to_set().contains(x) by {
            if a1.to_set().contains(x) {
                let i = choose|i: int| 0 <= i < a1.len() && a1[i] == x;
                assert(a[i + 1] == x);
                assert(text_less(a[0], a[i + 1]));
                lemma_text_less_irreflexive(x);
                assert(a.contains(x));
                assert(b.to_set().contains(x));
                let j = choose|j: int| 0 <= j < b.len() && b[j] == x;
                if j == 0 {
                    assert(false);
                }
                assert(b1[j - 1] == x);
                assert(b1.contains(x));
            }
            if b1.to_set().contains(x) {
                let j = choose|j: int| 0 <= j < b1.len() && b1[j] == x;
                assert(b[j + 1] == x);
                assert(text_less(b[0], b[j + 1]));
                lemma_text_less_irreflexive(x);
                assert(b.contains(x));
                assert(a.to_set().contains(x));
                let i = choose|i: int| 0 <= i < a.len() && a[i] == x;
                if i == 0 {
                    assert(false);
                }
                assert(a1[i - 1] == x);
                assert(a1.contains(x));
            }
        }
        assert(a1.to_set() =~= b1.to_set());
        assert forall|i: int, j: int| 0 <= i < j < a1.len() implies text_less(
            #[trigger] a1[i],
            #[trigger] a1[j],
        ) by {
            assert(a1[i] == a[i + 1] && a1[j] == a[j + 1]);
        }
        assert forall|i: int, j: int| 0 <= i < j < b1.len() implies text_less(
            #[trigger] b1[i],
            #[trigger] b1[j],
        ) by {
            assert(b1[i] == b[i + 1] && b1[j] == b[j + 1]);
        }
        lemma_sorted_same_set_equal(a1, b1);
        assert(a =~= seq![a[0]] + a1);
        assert(b =~= seq![b[0]] + b1);
    }
}

/// The texts are in order, and `chars` holds the characters of each, for comparison.
pub open spec fn sorted_wf(list: Seq<String>, chars: Seq<Vec<char>>) -> bool {
    &&& strictly_sorted(texts(list))
    &&& chars.len() == list.len()
    &&& forall|k: int| 0 <= k < chars.len() ==> #[trigger] chars[k]@ == list[k]@
}

/// Adds `text` to sorted `list` (with `chars` their characters) unless it is already there.
fn insert_sorted(list: &mut Vec<String>, chars: &mut Vec<Vec<char>>, text: String)
    requires
        sorted_wf(old(list)@, old(chars)@),
    ensures
        sorted_wf(final(list)@, final(chars)@),
        texts(final(list)@).to_set() == texts(old(list)@).to_set().insert(text@),
{
    let c = chars_of(text.as_str());
    let mut p: usize = 0;
    while p < chars.len() && chars_less(&chars[p], &c)
        invariant
            sorted_wf(list@, chars@),
            c@ == text@,
            p <= chars.len(),
            forall|k: int| 0 <= k < p ==> text_less(#[trigger] texts(list@)[k], text@),
        decreases chars.len() - p,
    {
        p = p + 1;
    }
    let ghost old_items = texts(list@);
    if p < chars.len() && !chars_less(&c, &chars[p]) {
        // neither comes before the other: the text is already there
        proof {
            if texts(list@)[p as int] != text@ {
                lemma_text_less_total(texts(list@)[p as int], text@);
            }
            assert(old_items.to_set().insert(text@) =~= old_items.to_set());
        }
        return;
    }
    proof {
        if p < chars.len() {
            assert(text_less(text@, old_items[p as int]));
        }
        assert forall|k: int| p <= k < old_items.len() implies text_less(
            text@,
            #[trigger] old_items[k],
        ) by {
            if k > p {
                lemma_text_less_transitive(text@, old_items[p as int], old_items[k]);
            }
        }
    }
    chars.insert(p, c);
    list.insert(p, text);
    proof {
        let items = texts(list@);
        assert(items =~= old_items.insert(p as int, text@));
        assert forall|i: int, j: int| 0 <= i < j < items.len() implies text_less(
            #[trigger] items[i],
            #[trigger] items[j],
        ) by {
            if i < p && j < p {
            } else if i < p && j == p {
            } else if i < p {
                assert(items[j] == old_items[j - 1]);
            } else if i == p {
                assert(items[j] == old_items[j - 1]);
            } else {
                assert(items[i] == old_items[i - 1]);
                assert(items[j] == old_items[j - 1]);
            }
        }
        assert forall|k: int| 0 <= k < chars.len() implies #[trigger] chars[k]@
            == list[k]@ by {
            if k < p {
            } else if k > p {
                assert(chars[k] == old(chars)[k - 1]);
                assert(list[k] == old(list)[k - 1]);
            }
        }
        assert(items.to_set() =~= old_items.to_set().insert(text@)) by {
            assert forall|x: Seq<char>| items.to_set().contains(x) implies old_items.to_set().insert(
                text@,
            ).contains(x) by {
                let i = choose|i: int| 0 <= i < items.len() && items[i] == x;
                if i < p {
                    assert(old_items[i] == x);
                    assert(old_items.contains(x));
                } else if i > p {
                    assert(old_items[i - 1] == x);
                    assert(old_items.contains(x));
                }
            }
            assert forall|x: Seq<char>| old_items.to_set().insert(text@).contains(
                x,
            ) implies items.to_set().contains(x) by {
                if x == text@ {
                    assert(items[p as int] == x);
                    assert(items.contains(x));
                } else {
                    let i = choose|i: int| 0 <= i < old_items.len() && old_items[i] == x;
                    if i < p {
                        assert(items[i] == x);
                        assert(items.contains(x));
                    } else {
                        assert(items[i + 1] == x);
                        assert(items.contains(x));
                    }
                }
            }
        }
    }
}

/// A set of texts, kept in increasing order without repetition.
pub struct SortedTexts {
    texts: Vec<String>,
    chars: Vec<Vec<char>>,
}

impl SortedTexts {
    /// The texts, in order.
    pub closed spec fn items(&self) -> Seq<Seq<char>> {
        texts(self.texts@)
    }

    /// The order holds, and the characters kept for comparison match the texts.
    #[verifier::type_invariant]
    closed spec fn wf(&self) -> bool {
        sorted_wf(self.texts@, self.chars@)
    }

    /// No texts.
    pub fn new() -> (r: Self)
        ensures
            r.items() == Seq::<Seq<char>>::empty(),
    {
        let r = SortedTexts { texts: Vec::new(), chars: Vec::new() };
        assert(r.items() =~= Seq::<Seq<char>>::empty());
        r
    }

    /// Adds `text` unless it is already there.
    pub fn insert(&mut self, text: String)
        ensures
            final(self).items().to_set() == old(self).items().to_set().insert(text@),
    {
        proof {
            use_type_invariant(&*self);
        }
        let mut taken = SortedTexts { texts: Vec::new(), chars: Vec::new() };
        std::mem::swap(&mut taken, self);
        proof {
            use_type_invariant(&taken);
        }
        let SortedTexts { mut texts, mut chars } = taken;
        insert_sorted(&mut texts, &mut chars, text);
        *self = SortedTexts { texts, chars };
    }

    /// Gives up the texts.
    pub fn into_texts(self) -> (r: Vec<String>)
        ensures
            texts(r@) == self.items(),
            strictly_sorted(self.items()),
    {
        proof {
            use_type_invariant(&self);
        }
        self.texts
    }
}

} // verus!
