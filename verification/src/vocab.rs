//! The character vocabulary: every distinct character of the training texts
//! gets a positive id, in the order in which the characters are first seen.

use std::collections::HashMap;
use vstd::prelude::*;
use vstd::std_specs::iter::IteratorSpec;
use crate::text::{is_first_occurrence, lemma_first_occurrence};

verus! {

/// The id reserved for padding and for characters that the vocabulary lacks.
pub const UNKNOWN_ID: usize = 0;

/// The id of `c` in a vocabulary whose characters are `order`: one more than
/// its position, or 0 where `c` is absent.
pub open spec fn char_id(order: Seq<char>, c: char) -> nat {
    match order.index_of_first(c) {
        Some(i) => (i + 1) as nat,
        None => 0,
    }
}

/// The ids of the characters of `text`, one for one.
pub open spec fn encode_text(order: Seq<char>, text: Seq<char>) -> Seq<nat> {
    Seq::new(text.len(), |i: int| char_id(order, text[i]))
}

/// `order` extended by the characters of `text` that it does not hold yet,
/// each appended where it is first met.
pub open spec fn observe_text(order: Seq<char>, text: Seq<char>) -> Seq<char>
    decreases text.len(),
{
    if text.len() == 0 {
        order
    } else {
        let seen = observe_text(order, text.drop_last());
        if seen.contains(text.last()) {
            seen
        } else {
            seen.push(text.last())
        }
    }
}

/// `order` extended by the new characters of each text in turn.
pub open spec fn observe_texts(order: Seq<char>, texts: Seq<Seq<char>>) -> Seq<char>
    decreases texts.len(),
{
    if texts.len() == 0 {
        order
    } else {
        observe_text(observe_texts(order, texts.drop_last()), texts.last())
    }
}

/// The vocabulary that a sequence of texts gives rise to.
pub open spec fn vocabulary_of(texts: Seq<Seq<char>>) -> Seq<char> {
    observe_texts(Seq::empty(), texts)
}

/// The numbers held in a vector of ids.
pub open spec fn ids_view(ids: Seq<usize>) -> Seq<nat> {
    Seq::new(ids.len(), |i: int| ids[i] as nat)
}

/// The key under which the lookup table of a vocabulary files `c`.
pub open spec fn code_point(c: char) -> u32 {
    c as u32
}

/// Distinct characters have distinct keys.
pub proof fn lemma_code_point_injective(a: char, b: char)
    requires
        code_point(a) == code_point(b),
    ensures
        a == b,
{
}

/// How the lookup table of a vocabulary follows from its characters: a
/// character is a key exactly if the vocabulary holds it, and is then mapped
/// to one more than its position.
pub open spec fn table_matches(order: Seq<char>, table: Map<u32, usize>) -> bool {
    &&& order.no_duplicates()
    &&& forall|c: char| order.contains(c) <==> table.contains_key(#[trigger] code_point(c))
    &&& forall|c: char|
        table.contains_key(#[trigger] code_point(c)) ==> 1 <= table[code_point(c)] <= order.len()
            && order[table[code_point(c)] - 1] == c
}

/// In a sequence without duplicates a character has the id of the one place
/// where it stands.
pub proof fn lemma_char_id_at(order: Seq<char>, i: int)
    requires
        order.no_duplicates(),
        0 <= i < order.len(),
    ensures
        char_id(order, order[i]) == i + 1,
{
    lemma_first_occurrence(order, order[i], i);
}

/// A character that a sequence lacks has the id 0, and only such a character.
pub proof fn lemma_char_id_absent(order: Seq<char>, c: char)
    ensures
        char_id(order, c) == 0 <==> !order.contains(c),
        char_id(order, c) <= order.len(),
{
    order.index_of_first_ensures(c);
}

/// Observing a text keeps what the vocabulary held, in place: no id that was
/// assigned ever changes.
pub proof fn lemma_observe_keeps_prefix(order: Seq<char>, text: Seq<char>)
    ensures
        order.is_prefix_of(observe_text(order, text)),
    decreases text.len(),
{
    if text.len() > 0 {
        lemma_observe_keeps_prefix(order, text.drop_last());
    }
}

/// After observing a text the vocabulary holds what it held before and the
/// characters of the text, and nothing else.
pub proof fn lemma_observe_contains(order: Seq<char>, text: Seq<char>, c: char)
    ensures
        observe_text(order, text).contains(c) <==> order.contains(c) || text.contains(c),
    decreases text.len(),
{
    if text.len() > 0 {
        let front = text.drop_last();
        let seen = observe_text(order, front);
        lemma_observe_contains(order, front, c);
        if text.contains(c) {
            let i = text.index_of(c);
            if i < front.len() {
                assert(front[i] == c);
            }
        }
        if front.contains(c) {
            let i = front.index_of(c);
            assert(text[i] == c);
        }
        if !seen.contains(text.last()) {
            let grown = seen.push(text.last());
            assert(grown[seen.len() as int] == text.last());
            if seen.contains(c) {
                let i = seen.index_of(c);
                assert(grown[i] == c);
            }
        }
    }
}

/// Observing a text never makes a character occur twice.
pub proof fn lemma_observe_no_duplicates(order: Seq<char>, text: Seq<char>)
    requires
        order.no_duplicates(),
    ensures
        observe_text(order, text).no_duplicates(),
    decreases text.len(),
{
    if text.len() > 0 {
        lemma_observe_no_duplicates(order, text.drop_last());
    }
}

/// Observing two texts one after the other is observing their concatenation.
pub proof fn lemma_observe_concat(order: Seq<char>, a: Seq<char>, b: Seq<char>)
    ensures
        observe_text(order, a + b) == observe_text(observe_text(order, a), b),
    decreases b.len(),
{
    if b.len() == 0 {
        assert(a + b =~= a);
    } else {
        assert((a + b).drop_last() =~= a + b.drop_last());
        lemma_observe_concat(order, a, b.drop_last());
    }
}

/// Feeding the texts one by one gives the vocabulary of all their characters
/// taken as one text: the result depends on the characters and their order
/// alone, not on how they are cut into texts.
pub proof fn lemma_observe_texts_flatten(order: Seq<char>, texts: Seq<Seq<char>>)
    ensures
        observe_texts(order, texts) == observe_text(order, texts.flatten()),
    decreases texts.len(),
{
    if texts.len() == 0 {
        assert(texts.flatten() =~= Seq::<char>::empty());
    } else {
        let front = texts.drop_last();
        lemma_observe_texts_flatten(order, front);
        front.lemma_flatten_push(texts.last());
        assert(front.push(texts.last()) =~= texts);
        lemma_observe_concat(order, front.flatten(), texts.last());
    }
}

/// Of two characters that a text adds to an empty vocabulary, the one that
/// occurs first in the text has the smaller id.
pub proof fn lemma_observe_first_seen_order(text: Seq<char>, i: int, j: int)
    requires
        0 <= i < j < observe_text(Seq::empty(), text).len(),
    ensures
        ({
            let order = observe_text(Seq::empty(), text);
            &&& text.index_of_first(order[i]) matches Some(p)
            &&& text.index_of_first(order[j]) matches Some(q)
            &&& p < q
        }),
    decreases text.len(),
{
    let order = observe_text(Seq::empty(), text);
    let front = text.drop_last();
    let seen = observe_text(Seq::empty(), front);
    let last = text.last();
    if j < seen.len() {
        lemma_observe_first_seen_order(front, i, j);
        let p = front.index_of_first(seen[i]).unwrap();
        let q = front.index_of_first(seen[j]).unwrap();
        front.index_of_first_ensures(seen[i]);
        front.index_of_first_ensures(seen[j]);
        assert(is_first_occurrence(text, order[i], p)) by {
            assert forall|k: int| 0 <= k < p implies text[k] != order[i] by {
                assert(text[k] == front[k]);
            }
        }
        assert(is_first_occurrence(text, order[j], q)) by {
            assert forall|k: int| 0 <= k < q implies text[k] != order[j] by {
                assert(text[k] == front[k]);
            }
        }
        lemma_first_occurrence(text, order[i], p);
        lemma_first_occurrence(text, order[j], q);
    } else {
        lemma_observe_contains(Seq::empty(), front, last);
        lemma_observe_contains(Seq::empty(), front, seen[i]);
        front.index_of_first_ensures(seen[i]);
        let p = front.index_of_first(seen[i]).unwrap();
        assert(is_first_occurrence(text, order[i], p)) by {
            assert forall|k: int| 0 <= k < p implies text[k] != order[i] by {
                assert(text[k] == front[k]);
            }
        }
        lemma_first_occurrence(text, order[i], p);
        let q = text.len() - 1;
        assert(is_first_occurrence(text, last, q)) by {
            assert forall|k: int| 0 <= k < q implies text[k] != last by {
                if text[k] == last {
                    assert(front[k] == last);
                }
            }
        }
        lemma_first_occurrence(text, last, q);
    }
}

/// Of two characters of a vocabulary, the one that occurs first in the
/// texts, read one after the other, has the smaller id: ids go by first
/// occurrence, not by how often a character occurs.
pub proof fn lemma_vocabulary_first_seen_order(texts: Seq<Seq<char>>, i: int, j: int)
    requires
        0 <= i < j < vocabulary_of(texts).len(),
    ensures
        ({
            let order = vocabulary_of(texts);
            let all = texts.flatten();
            &&& all.index_of_first(order[i]) matches Some(p)
            &&& all.index_of_first(order[j]) matches Some(q)
            &&& p < q
        }),
{
    lemma_observe_texts_flatten(Seq::empty(), texts);
    lemma_observe_first_seen_order(texts.flatten(), i, j);
}

/// The ids of a vocabulary are dense: they start at 1, none is left out up to
/// the number of distinct characters of the texts, no two characters share
/// one, and a character outside the texts has none.
pub proof fn lemma_vocabulary_dense(texts: Seq<Seq<char>>)
    ensures
        ({
            let order = vocabulary_of(texts);
            let all = texts.flatten();
            &&& order.no_duplicates()
            &&& order.len() == all.to_set().len()
            &&& forall|c: char| order.contains(c) <==> all.contains(c)
            &&& forall|c: char| all.contains(c) ==> 1 <= #[trigger] char_id(order, c) <= order.len()
            &&& forall|c: char| !all.contains(c) ==> #[trigger] char_id(order, c) == 0
            &&& forall|k: int| 1 <= k <= order.len() ==> char_id(order, #[trigger] order[k - 1]) == k
            &&& forall|a: char, b: char|
                char_id(order, a) == char_id(order, b) && char_id(order, a) != 0 ==> a == b
        }),
{
    let order = vocabulary_of(texts);
    let all = texts.flatten();
    lemma_observe_texts_flatten(Seq::empty(), texts);
    lemma_observe_no_duplicates(Seq::empty(), all);
    assert forall|c: char| order.contains(c) <==> all.contains(c) by {
        lemma_observe_contains(Seq::empty(), all, c);
    }
    assert(order.to_set() =~= all.to_set());
    order.unique_seq_to_set();
    assert forall|c: char| all.contains(c) implies 1 <= #[trigger] char_id(order, c)
        <= order.len() by {
        lemma_char_id_absent(order, c);
    }
    assert forall|c: char| !all.contains(c) implies #[trigger] char_id(order, c) == 0 by {
        lemma_char_id_absent(order, c);
    }
    assert forall|k: int| 1 <= k <= order.len() implies char_id(order, #[trigger] order[k - 1])
        == k by {
        lemma_char_id_at(order, k - 1);
    }
    assert forall|a: char, b: char|
        char_id(order, a) == char_id(order, b) && char_id(order, a) != 0 implies a == b by {
        order.index_of_first_ensures(a);
        order.index_of_first_ensures(b);
    }
}

/// Computes the key of a character.
fn key_of(c: char) -> (k: u32)
    ensures
        k == code_point(c),
{
    c as u32
}

/// A character vocabulary with dense ids from 1, in first-seen order.
#[derive(Debug)]
pub struct Vocabulary {
    order: Vec<char>,
    table: HashMap<u32, usize>,
}

impl View for Vocabulary {
    type V = Seq<char>;

    /// The characters of the vocabulary; the one at position `i` has the id `i + 1`.
    closed spec fn view(&self) -> Seq<char> {
        self.order@
    }
}

impl Vocabulary {
    #[verifier::type_invariant]
    spec fn linked(self) -> bool {
        table_matches(self.order@, self.table@)
    }

    /// The vocabulary without any character.
    pub fn new() -> (r: Self)
        ensures
            r@ == Seq::<char>::empty(),
    {
        Vocabulary { order: Vec::new(), table: HashMap::new() }
    }

    /// The number of characters, which is also the largest id.
    pub fn len(&self) -> (r: usize)
        ensures
            r == self@.len(),
    {
        self.order.len()
    }

    /// The characters in the order of their ids.
    pub fn chars(&self) -> (r: &Vec<char>)
        ensures
            r@ == self@,
            r@.no_duplicates(),
    {
        proof {
            use_type_invariant(self);
        }
        &self.order
    }

    /// The id of `c`, or 0 where the vocabulary does not hold it.
    pub fn id_of(&self, c: char) -> (r: usize)
        ensures
            r == char_id(self@, c),
            r <= self@.len(),
            r == 0 <==> !self@.contains(c),
    {
        proof {
            use_type_invariant(self);
            lemma_char_id_absent(self@, c);
        }
        let key = key_of(c);
        match self.table.get(&key) {
            Some(id) => {
                proof {
                    lemma_char_id_at(self.order@, *id - 1);
                }
                *id
            },
            None => UNKNOWN_ID,
        }
    }

    /// Adds the characters of `text` that are new, in the order in which they occur.
    pub fn observe(&mut self, text: &str)
        ensures
            final(self)@ == observe_text(old(self)@, text@),
    {
        let mut taken = Vocabulary::new();
        std::mem::swap(self, &mut taken);
        proof {
            use_type_invariant(&taken);
        }
        let Vocabulary { mut order, mut table } = taken;
        let ghost start = order@;
        let ghost mut seen: int = 0;
        let mut it = text.chars();
        loop
            invariant
                0 <= seen <= text@.len(),
                it.remaining() == text@.skip(seen),
                table_matches(order@, table@),
                order@ == observe_text(start, text@.take(seen)),
            ensures
                table_matches(order@, table@),
                order@ == observe_text(start, text@),
            decreases text@.len() - seen,
        {
            match it.next() {
                None => {
                    proof {
                        assert(text@.take(seen) =~= text@);
                    }
                    break ;
                },
                Some(c) => {
                    proof {
                        assert(text@.take(seen + 1).drop_last() =~= text@.take(seen));
                    }
                    let key = key_of(c);
                    if !table.contains_key(&key) {
                        let ghost before = order@;
                        let ghost table_before = table@;
                        order.push(c);
                        let id = order.len();
                        table.insert(key, id);
                        proof {
                            assert forall|d: char|
                                order@.contains(d) <==> table@.contains_key(
                                    #[trigger] code_point(d),
                                ) by {
                                if code_point(d) == code_point(c) {
                                    lemma_code_point_injective(d, c);
                                    assert(order@[before.len() as int] == c);
                                } else if before.contains(d) {
                                    let i = before.index_of(d);
                                    assert(order@[i] == d);
                                } else if order@.contains(d) {
                                    let i = order@.index_of(d);
                                    assert(before[i] == d);
                                }
                            }
                            assert forall|d: char|
                                table@.contains_key(#[trigger] code_point(d)) implies 1
                                <= table@[code_point(d)] <= order@.len() && order@[table@[code_point(
                                d,
                            )] - 1] == d by {
                                if code_point(d) == code_point(c) {
                                    lemma_code_point_injective(d, c);
                                } else {
                                    assert(table_before.contains_key(code_point(d)));
                                    let at = table_before[code_point(d)] - 1;
                                    assert(order@[at] == before[at]);
                                }
                            }
                        }
                    }
                    proof {
                        seen = seen + 1;
                    }
                },
            }
        }
        let mut rebuilt = Vocabulary { order, table };
        std::mem::swap(self, &mut rebuilt);
    }

    /// The vocabulary of a sequence of texts.
    pub fn from_texts(texts: &Vec<String>) -> (r: Self)
        ensures
            r@ == vocabulary_of(texts.deep_view()),
    {
        let mut vocabulary = Vocabulary::new();
        let ghost all = texts.deep_view();
        for i in 0..texts.len()
            invariant
                all == texts.deep_view(),
                vocabulary@ == observe_texts(Seq::empty(), all.take(i as int)),
        {
            proof {
                assert(all.take(i + 1).drop_last() =~= all.take(i as int));
            }
            vocabulary.observe(texts[i].as_str());
        }
        proof {
            assert(all.take(texts.len() as int) =~= all);
        }
        vocabulary
    }

    /// The ids of the characters of `text`, with 0 for each character that the
    /// vocabulary lacks.
    pub fn encode(&self, text: &str) -> (r: Vec<usize>)
        ensures
            ids_view(r@) == encode_text(self@, text@),
            r@.len() == text@.len(),
    {
        let mut ids: Vec<usize> = Vec::new();
        let mut it = text.chars();
        loop
            invariant
                ids@.len() <= text@.len(),
                it.remaining() == text@.skip(ids@.len() as int),
                forall|j: int| 0 <= j < ids@.len() ==> ids@[j] == char_id(self@, text@[j]),
            decreases text@.len() - ids@.len(),
        {
            match it.next() {
                None => {
                    return ids;
                },
                Some(c) => {
                    let id = self.id_of(c);
                    ids.push(id);
                },
            }
        }
    }
}

} // verus!
