//! Sets of maintainer names that keep the order in which the names came.

use crate::text::texts;
use vstd::prelude::*;

verus! {

/// `names` without the repetitions: each name stays where it first stands.
pub open spec fn distinct(names: Seq<Seq<char>>) -> Seq<Seq<char>>
    decreases names.len(),
{
    if names.len() == 0 {
        names
    } else {
        let before = distinct(names.drop_last());
        if before.contains(names.last()) {
            before
        } else {
            before.push(names.last())
        }
    }
}

/// `distinct` names nothing twice, and names what `names` does.
pub proof fn lemma_distinct(names: Seq<Seq<char>>)
    ensures
        distinct(names).no_duplicates(),
        forall|name: Seq<char>| distinct(names).contains(name) <==> names.contains(name),
        distinct(names).len() <= names.len(),
        names.len() > 0 ==> distinct(names).len() > 0,
    decreases names.len(),
{
    if names.len() > 0 {
        let init = names.drop_last();
        let before = distinct(init);
        lemma_distinct(init);
        assert forall|name: Seq<char>| distinct(names).contains(name) <==> names.contains(
            name,
        ) by {
            if names.contains(name) {
                let i: int = choose|i: int| 0 <= i < names.len() && names[i] == name;
                if i < init.len() {
                    assert(init[i] == name);
                    assert(init.contains(name));
                    let j: int = choose|j: int| 0 <= j < before.len() && before[j] == name;
                    assert(distinct(names)[j] == name);
                } else if !before.contains(names.last()) {
                    assert(distinct(names)[before.len() as int] == name);
                }
            }
            if distinct(names).contains(name) {
                let j: int = choose|j: int|
                    0 <= j < distinct(names).len() && distinct(names)[j] == name;
                if j < before.len() {
                    assert(before[j] == name);
                    assert(init.contains(name));
                    let i: int = choose|i: int| 0 <= i < init.len() && init[i] == name;
                    assert(names[i] == name);
                } else {
                    assert(names[names.len() - 1] == name);
                }
            }
        }
    }
}

/// A set of maintainer names. Names are told apart letter for letter, and the
/// set keeps them in the order in which they were first put in.
#[derive(Debug, PartialEq, Eq)]
pub struct MaintainerSet {
    names: Vec<String>,
}

impl View for MaintainerSet {
    type V = Seq<Seq<char>>;

    /// The names, in the order in which they were first put in.
    closed spec fn view(&self) -> Seq<Seq<char>> {
        texts(self.names@)
    }
}

impl MaintainerSet {
    /// Whether the set is well formed: it holds no name twice. The functions
    /// that make a set make a well-formed one, and those that change one keep
    /// it so.
    pub open spec fn wf(&self) -> bool {
        self@.no_duplicates()
    }

    /// The names as a set.
    pub open spec fn as_set(&self) -> Set<Seq<char>> {
        self@.to_set()
    }

    /// The set without a name.
    pub fn new() -> (set: Self)
        ensures
            set@ == Seq::<Seq<char>>::empty(),
            set.wf(),
    {
        let set = MaintainerSet { names: Vec::new() };
        assert(set@ == Seq::<Seq<char>>::empty());
        set
    }

    /// The set of the names in `names`.
    pub fn from_names(names: &Vec<String>) -> (set: Self)
        ensures
            set@ == distinct(texts(names@)),
            set.as_set() == texts(names@).to_set(),
            set.wf(),
    {
        let mut set = MaintainerSet::new();
        let mut i: usize = 0;
        while i < names.len()
            invariant
                i <= names.len(),
                set@ == distinct(texts(names@).take(i as int)),
            decreases names.len() - i,
        {
            assert(texts(names@).take(i + 1).drop_last() == texts(names@).take(i as int));
            set.insert(names[i].clone());
            i += 1;
        }
        assert(texts(names@).take(i as int) == texts(names@));
        proof {
            lemma_distinct(texts(names@));
            assert(set.as_set() =~= texts(names@).to_set());
        }
        set
    }

    /// How many names the set holds.
    pub fn len(&self) -> (n: usize)
        ensures
            n == self@.len(),
    {
        self.names.len()
    }

    /// Whether the set holds no name.
    pub fn is_empty(&self) -> (empty: bool)
        ensures
            empty == (self@.len() == 0),
    {
        self.names.len() == 0
    }

    /// Whether the set holds `name`.
    pub fn contains(&self, name: &str) -> (found: bool)
        ensures
            found == self@.contains(name@),
    {
        let wanted = String::from_str(name);
        let mut i: usize = 0;
        while i < self.names.len()
            invariant
                i <= self.names.len(),
                wanted@ == name@,
                forall|k: int| 0 <= k < i ==> self@[k] != name@,
            decreases self.names.len() - i,
        {
            if self.names[i] == wanted {
                assert(self@[i as int] == name@);
                return true;
            }
            i += 1;
        }
        false
    }

    /// Puts `name` into the set, behind the names that it holds, unless it
    /// holds `name` already. Says whether the name is new to the set.
    pub fn insert(&mut self, name: String) -> (fresh: bool)
        ensures
            fresh == !old(self)@.contains(name@),
            final(self)@ == if fresh {
                old(self)@.push(name@)
            } else {
                old(self)@
            },
            old(self).wf() ==> final(self).wf(),
    {
        if self.contains(name.as_str()) {
            false
        } else {
            let ghost before = self@;
            self.names.push(name);
            assert(self@ == before.push(name@));
            true
        }
    }

    /// The names, in the order in which they were first put in.
    pub fn names(&self) -> (names: &Vec<String>)
        ensures
            texts(names@) == self@,
    {
        &self.names
    }
}

impl Clone for MaintainerSet {
    fn clone(&self) -> (copy: Self)
        ensures
            copy@ == self@,
    {
        let mut names: Vec<String> = Vec::new();
        let mut i: usize = 0;
        while i < self.names.len()
            invariant
                i <= self.names.len(),
                texts(names@) == self@.take(i as int),
            decreases self.names.len() - i,
        {
            let ghost before = texts(names@);
            names.push(self.names[i].clone());
            assert(texts(names@) == before.push(self@[i as int]));
            i += 1;
        }
        assert(self@.take(i as int) == self@);
        MaintainerSet { names }
    }
}

} // verus!
