//! The class index: class names mapped to their place in the class list.

use vstd::prelude::*;

verus! {

/// The mapping that a list of class names gives: each name to its position,
/// counted from 0; a name that occurs again takes the later position.
pub open spec fn class_map(names: Seq<Seq<char>>) -> Map<Seq<char>, nat>
    decreases names.len(),
{
    if names.len() == 0 {
        Map::empty()
    } else {
        class_map(names.drop_last()).insert(names.last(), (names.len() - 1) as nat)
    }
}

/// Whether `i` is the last position at which `name` stands in `names`.
pub open spec fn is_last_occurrence(names: Seq<Seq<char>>, name: Seq<char>, i: int) -> bool {
    &&& 0 <= i < names.len()
    &&& names[i] == name
    &&& forall|j: int| i < j < names.len() ==> names[j] != name
}

/// The class map holds exactly the names of the list.
pub proof fn lemma_class_map_domain(names: Seq<Seq<char>>, name: Seq<char>)
    ensures
        class_map(names).contains_key(name) <==> names.contains(name),
        class_map(names).contains_key(name) ==> class_map(names)[name] < names.len(),
    decreases names.len(),
{
    if names.len() > 0 {
        let front = names.drop_last();
        lemma_class_map_domain(front, name);
        if front.contains(name) {
            let i = front.index_of(name);
            assert(names[i] == name);
        }
        if names.contains(name) && names.last() != name {
            let i = names.index_of(name);
            assert(front[i] == name);
        }
    }
}

/// Each name is mapped to the last position at which it stands.
pub proof fn lemma_class_map_last(names: Seq<Seq<char>>, name: Seq<char>, i: int)
    requires
        is_last_occurrence(names, name, i),
    ensures
        class_map(names).contains_key(name),
        class_map(names)[name] == i,
    decreases names.len(),
{
    if i < names.len() - 1 {
        let front = names.drop_last();
        assert forall|j: int| i < j < front.len() implies front[j] != name by {
            assert(front[j] == names[j]);
        }
        lemma_class_map_last(front, name, i);
    }
}

/// An ordered list of class names, looked up by name.
#[derive(Debug)]
pub struct ClassIndex {
    names: Vec<String>,
}

impl View for ClassIndex {
    type V = Map<Seq<char>, nat>;

    closed spec fn view(&self) -> Map<Seq<char>, nat> {
        class_map(self.names.deep_view())
    }
}

impl ClassIndex {
    /// The index of a class list, in the order given.
    pub fn new(names: Vec<String>) -> (r: Self)
        ensures
            r@ == class_map(names.deep_view()),
    {
        ClassIndex { names }
    }

    /// The position of `label` in the class list, if it is a class name.
    pub fn get(&self, label: &str) -> (r: Option<usize>)
        ensures
            r is Some <==> self@.contains_key(label@),
            r matches Some(i) ==> self@[label@] == i,
    {
        let wanted = label.to_owned();
        let ghost names = self.names.deep_view();
        let mut i = self.names.len();
        while i > 0
            invariant
                names == self.names.deep_view(),
                wanted@ == label@,
                i <= self.names.len(),
                forall|j: int| i <= j < names.len() ==> names[j] != label@,
            decreases i,
        {
            i = i - 1;
            if self.names[i] == wanted {
                proof {
                    lemma_class_map_last(names, label@, i as int);
                }
                return Some(i);
            }
        }
        proof {
            lemma_class_map_domain(names, label@);
        }
        None
    }

    /// The number of lines of the class list.
    pub fn len(&self) -> (r: usize)
        ensures
            r == self.names_view().len(),
    {
        self.names.len()
    }

    /// The class list that the index was made from.
    pub closed spec fn names_view(&self) -> Seq<Seq<char>> {
        self.names.deep_view()
    }
}

} // verus!
