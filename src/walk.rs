use vstd::prelude::*;
use vstd::multiset::Multiset;
use vstd::seq_lib::lemma_multiset_commutative;

verus! {

/// The text of each path, in order.
pub open spec fn path_texts(v: Seq<String>) -> Seq<Seq<char>> {
    v.map_values(|s: String| s@)
}

/// A depth-first walk over a directory tree, driven from outside: the
/// caller asks for the next directory, lists it, and reports its
/// subdirectories. Directories come out in pre-order: a directory before
/// its subdirectories, and those in the order they were reported.
pub struct DirectoryWalk {
    pending: Vec<String>,
    visited: Vec<String>,
    root: Ghost<Seq<char>>,
    discovered: Ghost<Multiset<Seq<char>>>,
}

impl DirectoryWalk {
    /// Directories reported but not yet handed out; the last comes out next.
    pub closed spec fn pending_paths(&self) -> Seq<Seq<char>> {
        path_texts(self.pending@)
    }

    /// Directories handed out so far, in order.
    pub closed spec fn visited_paths(&self) -> Seq<Seq<char>> {
        path_texts(self.visited@)
    }

    /// The directory the walk started from.
    pub closed spec fn root_path(&self) -> Seq<char> {
        self.root@
    }

    /// Every directory the walk was told of: the root and each reported
    /// subdirectory, counted as often as it was reported.
    pub closed spec fn discovered_paths(&self) -> Multiset<Seq<char>> {
        self.discovered@
    }

    /// Nothing is lost or duplicated: each discovered directory is either
    /// visited or pending.
    pub closed spec fn wf(&self) -> bool {
        &&& self.visited_paths().to_multiset().add(self.pending_paths().to_multiset())
            == self.discovered@
        &&& self.discovered@.count(self.root@) >= 1
    }

    /// The walk is over when nothing is pending.
    pub open spec fn is_finished(&self) -> bool {
        self.pending_paths().len() == 0
    }

    /// A walk that has the root pending and has visited nothing.
    pub fn new(root: String) -> (r: DirectoryWalk)
        ensures
            r.wf(),
            r.root_path() == root@,
            r.pending_paths() == seq![root@],
            r.visited_paths() == Seq::<Seq<char>>::empty(),
            r.discovered_paths() == Multiset::<Seq<char>>::singleton(root@),
    {
        let ghost g = root@;
        let mut pending: Vec<String> = Vec::new();
        pending.push(root);
        let r = DirectoryWalk {
            pending,
            visited: Vec::new(),
            root: Ghost(g),
            discovered: Ghost(Multiset::singleton(g)),
        };
        proof {
            broadcast use vstd::seq_lib::group_to_multiset_ensures;
            assert(r.pending_paths() =~= seq![g]);
            assert(r.visited_paths() =~= Seq::<Seq<char>>::empty());
            assert(seq![g] =~= Seq::<Seq<char>>::empty().push(g));
            assert(r.visited_paths().to_multiset() =~= Multiset::empty());
            assert(r.pending_paths().to_multiset() =~= Multiset::empty().insert(g));
            assert(Multiset::<Seq<char>>::empty().insert(g) =~= Multiset::singleton(g));
            assert(Multiset::<Seq<char>>::empty().add(Multiset::singleton(g)) =~= Multiset::singleton(g));
            assert(Multiset::<Seq<char>>::singleton(g).count(g) == 1);
            assert(r.wf());
        }
        r
    }

    /// Hands out the next directory to list, and records it as visited;
    /// `None` once the walk is over.
    pub fn next_directory(&mut self) -> (r: Option<String>)
        requires
            old(self).wf(),
        ensures
            final(self).wf(),
            final(self).root_path() == old(self).root_path(),
            final(self).discovered_paths() == old(self).discovered_paths(),
            match r {
                Some(d) => {
                    &&& old(self).pending_paths().len() > 0
                    &&& d@ == old(self).pending_paths().last()
                    &&& final(self).pending_paths() == old(self).pending_paths().drop_last()
                    &&& final(self).visited_paths() == old(self).visited_paths().push(d@)
                },
                None => {
                    &&& old(self).pending_paths().len() == 0
                    &&& final(self).pending_paths() == old(self).pending_paths()
                    &&& final(self).visited_paths() == old(self).visited_paths()
                },
            },
    {
        let ghost old_pending = self.pending_paths();
        let ghost old_visited = self.visited_paths();
        match self.pending.pop() {
            None => None,
            Some(d) => {
                let out = d.clone();
                self.visited.push(d);
                proof {
                    broadcast use vstd::seq_lib::group_to_multiset_ensures;
                    assert(self.pending_paths() =~= old_pending.drop_last());
                    assert(old_pending =~= self.pending_paths().push(out@));
                    assert(self.visited_paths() =~= old_visited.push(out@));
                    assert(self.visited_paths().to_multiset().add(self.pending_paths().to_multiset())
                        =~= old_visited.to_multiset().add(old_pending.to_multiset()));
                }
                Some(out)
            },
        }
    }

    /// Reports the subdirectories of the directory handed out last. They
    /// come out next, first one first.
    pub fn report_subdirectories(&mut self, subdirectories: Vec<String>)
        requires
            old(self).wf(),
        ensures
            final(self).wf(),
            final(self).root_path() == old(self).root_path(),
            final(self).visited_paths() == old(self).visited_paths(),
            final(self).pending_paths() == old(self).pending_paths() + path_texts(
                subdirectories@,
            ).reverse(),
            final(self).discovered_paths() == old(self).discovered_paths().add(
                path_texts(subdirectories@).to_multiset(),
            ),
    {
        let ghost old_pending = self.pending_paths();
        let ghost subs = path_texts(subdirectories@);
        let mut rest = subdirectories;
        assert(old_pending + subs.reverse() =~= self.pending_paths() + path_texts(rest@).reverse());
        while rest.len() > 0
            invariant
                old_pending + subs.reverse() == self.pending_paths() + path_texts(rest@).reverse(),
                self.visited_paths() == old(self).visited_paths(),
                self.root@ == old(self).root@,
                self.discovered@ == old(self).discovered@,
            decreases rest@.len(),
        {
            let ghost before_rest = path_texts(rest@);
            let ghost before_pending = self.pending_paths();
            let d = rest.pop().unwrap();
            let ghost dv = d@;
            self.pending.push(d);
            assert(before_rest =~= path_texts(rest@).push(dv));
            assert(before_rest.reverse() =~= seq![dv] + path_texts(rest@).reverse());
            assert(self.pending_paths() =~= before_pending.push(dv));
            assert(self.pending_paths() + path_texts(rest@).reverse()
                =~= before_pending + before_rest.reverse());
        }
        proof {
            assert(path_texts(rest@).reverse() =~= Seq::<Seq<char>>::empty());
            assert(old_pending + subs.reverse() =~= self.pending_paths());
            lemma_multiset_commutative(old_pending, subs.reverse());
            subs.lemma_reverse_to_multiset();
            self.discovered = Ghost(self.discovered@.add(subs.to_multiset()));
            assert(self.visited_paths().to_multiset().add(self.pending_paths().to_multiset())
                =~= self.discovered@);
        }
    }

    /// The directories handed out, in the order they were handed out.
    pub fn into_visited(self) -> (r: Vec<String>)
        ensures
            path_texts(r@) == self.visited_paths(),
    {
        self.visited
    }
}

/// A finished walk has visited every directory it was told of, the root
/// among them, and nothing else. Where no directory was reported twice (a
/// tree without cycles), each was visited exactly once.
pub proof fn lemma_finished_walk_visits_each_once(w: &DirectoryWalk)
    requires
        w.wf(),
        w.is_finished(),
        forall|d: Seq<char>| #[trigger] w.discovered_paths().count(d) <= 1,
    ensures
        w.visited_paths().contains(w.root_path()),
        forall|d: Seq<char>| #[trigger] w.discovered_paths().contains(d)
            ==> w.visited_paths().to_multiset().count(d) == 1,
        forall|d: Seq<char>| #[trigger] w.visited_paths().contains(d)
            ==> w.discovered_paths().contains(d),
{
    broadcast use vstd::seq_lib::group_to_multiset_ensures;
    assert(w.pending_paths().to_multiset() =~= Multiset::empty());
    assert(w.visited_paths().to_multiset() =~= w.discovered_paths());
}

} // verus!
