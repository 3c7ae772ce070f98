//! A set of file paths, kept in the order in which the paths came in.

use vstd::prelude::*;

verus! {

/// The texts of a sequence of strings.
pub open spec fn texts(strings: Seq<String>) -> Seq<Seq<char>> {
    Seq::new(strings.len(), |i: int| strings[i]@)
}

/// `paths` with each path kept where it stands first and left out where it
/// stands again.
pub open spec fn first_occurrences(paths: Seq<Seq<char>>) -> Seq<Seq<char>>
    decreases paths.len(),
{
    if paths.len() == 0 {
        paths
    } else if first_occurrences(paths.drop_last()).contains(paths.last()) {
        first_occurrences(paths.drop_last())
    } else {
        first_occurrences(paths.drop_last()).push(paths.last())
    }
}

/// A set of paths. No path is held twice, and the members keep the order in
/// which they were first put in.
#[derive(Debug, Clone)]
pub struct PathSet {
    paths: Vec<String>,
}

impl View for PathSet {
    type V = Set<Seq<char>>;

    /// The paths that the set holds.
    closed spec fn view(&self) -> Set<Seq<char>> {
        texts(self.paths@).to_set()
    }
}

impl PathSet {
    /// The members in the order in which they were put in.
    pub closed spec fn order(&self) -> Seq<Seq<char>> {
        texts(self.paths@)
    }

    /// No path is held twice.
    pub closed spec fn wf(&self) -> bool {
        texts(self.paths@).no_duplicates()
    }

    /// The view is the set of what `order` lists, and a well-formed set has
    /// as many members as `order` is long.
    pub proof fn lemma_view_is_order(&self)
        ensures
            self@ == self.order().to_set(),
            self@.finite(),
            self.wf() ==> self@.len() == self.order().len() && self.order().no_duplicates(),
            forall|p: Seq<char>| self@.contains(p) <==> self.order().contains(p),
    {
        vstd::seq_lib::seq_to_set_is_finite(self.order());
        if self.wf() {
            self.order().unique_seq_to_set();
        }
    }

    /// The empty set.
    pub fn new() -> (set: PathSet)
        ensures
            set.wf(),
            set@ == Set::<Seq<char>>::empty(),
            set.order() == Seq::<Seq<char>>::empty(),
    {
        let set = PathSet { paths: Vec::new() };
        set
    }

    /// The number of members.
    pub fn len(&self) -> (n: usize)
        requires
            self.wf(),
        ensures
            n == self@.len(),
            n == self.order().len(),
    {
        proof {
            self.lemma_view_is_order();
        }
        self.paths.len()
    }

    /// Whether the set has no member.
    pub fn is_empty(&self) -> (r: bool)
        ensures
            r == (self@ == Set::<Seq<char>>::empty()),
            r == (self.order().len() == 0),
    {
        proof {
            if self.paths@.len() > 0 {
                assert(texts(self.paths@)[0] == self.paths@[0]@);
                assert(self@.contains(self.paths@[0]@));
            } else {
                assert(self@ =~= Set::<Seq<char>>::empty());
            }
        }
        self.paths.len() == 0
    }

    /// The member at place `i` of the order.
    pub fn get(&self, i: usize) -> (path: &String)
        requires
            i < self.order().len(),
        ensures
            path@ == self.order()[i as int],
    {
        &self.paths[i]
    }

    /// Whether `path` is a member.
    pub fn contains(&self, path: &str) -> (r: bool)
        ensures
            r == self@.contains(path@),
    {
        let wanted: String = path.to_owned();
        let mut i: usize = 0;
        while i < self.paths.len()
            invariant
                i <= self.paths.len(),
                wanted@ == path@,
                forall|k: int| 0 <= k < i ==> texts(self.paths@)[k] != path@,
            decreases self.paths.len() - i,
        {
            if self.paths[i] == wanted {
                assert(texts(self.paths@)[i as int] == path@);
                return true;
            }
            i = i + 1;
        }
        false
    }

    /// Puts `path` into the set. A path that is already a member changes
    /// nothing. Tells whether the path was new.
    pub fn insert(&mut self, path: String) -> (added: bool)
        requires
            old(self).wf(),
        ensures
            final(self).wf(),
            final(self)@ == old(self)@.insert(path@),
            added == !old(self)@.contains(path@),
            added ==> final(self).order() == old(self).order().push(path@),
            !added ==> final(self).order() == old(self).order(),
    {
        if self.contains(path.as_str()) {
            assert(self@.insert(path@) =~= self@);
            return false;
        }
        let ghost before: Seq<Seq<char>> = texts(self.paths@);
        self.paths.push(path);
        proof {
            assert(texts(self.paths@) =~= before.push(path@));
            before.lemma_push_to_set_commute(path@);
            assert forall|i: int, j: int|
                0 <= i < before.push(path@).len() && 0 <= j < before.push(path@).len() && i
                    != j implies before.push(path@)[i] != before.push(path@)[j] by {
                if i < before.len() {
                    assert(before.contains(before[i]));
                }
                if j < before.len() {
                    assert(before.contains(before[j]));
                }
            }
        }
        true
    }

    /// The set of the paths in `paths`; a path that stands there twice is
    /// taken once.
    pub fn from_paths(paths: &Vec<String>) -> (set: PathSet)
        ensures
            set.wf(),
            set@ == texts(paths@).to_set(),
            set.order() == first_occurrences(texts(paths@)),
    {
        let mut set = PathSet::new();
        let mut i: usize = 0;
        while i < paths.len()
            invariant
                i <= paths.len(),
                set.wf(),
                set@ == texts(paths@).take(i as int).to_set(),
                set.order() == first_occurrences(texts(paths@).take(i as int)),
            decreases paths.len() - i,
        {
            let path: String = paths[i].clone();
            proof {
                assert(texts(paths@).take(i + 1) == texts(paths@).take(i as int).push(path@));
                assert(texts(paths@).take(i + 1).drop_last() == texts(paths@).take(i as int));
                texts(paths@).take(i as int).lemma_push_to_set_commute(path@);
                set.lemma_view_is_order();
            }
            set.insert(path);
            i = i + 1;
        }
        assert(texts(paths@).take(i as int) == texts(paths@));
        set
    }

    /// The members as a vector, each once, in the order in which they came.
    pub fn paths(&self) -> (out: Vec<String>)
        ensures
            texts(out@) == self.order(),
    {
        let mut out: Vec<String> = Vec::new();
        let mut i: usize = 0;
        while i < self.paths.len()
            invariant
                i <= self.paths.len(),
                texts(out@) == texts(self.paths@).take(i as int),
            decreases self.paths.len() - i,
        {
            let path: String = self.paths[i].clone();
            out.push(path);
            assert(texts(self.paths@).take(i + 1) =~= texts(self.paths@).take(i as int).push(
                path@,
            ));
            i = i + 1;
        }
        out
    }

    /// A copy of the set.
    pub fn duplicate(&self) -> (copy: PathSet)
        ensures
            copy@ == self@,
            copy.order() == self.order(),
            copy.wf() == self.wf(),
    {
        let paths: Vec<String> = self.paths();
        PathSet { paths }
    }
}

} // verus!
