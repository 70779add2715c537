use vstd::multiset::Multiset;
use vstd::prelude::*;

verus! {

broadcast use vstd::seq_lib::group_to_multiset_ensures;

/// The pool of input paths that workers drain, one atomic pop at a time.
///
/// `initial` is every path the backlog was filled with; `handed_out` the paths
/// popped so far, in the order they left.
pub struct Backlog {
    pub paths: Vec<String>,
    pub initial: Ghost<Seq<String>>,
    pub handed_out: Ghost<Seq<String>>,
}

impl Backlog {
    /// Every path is either still pending or was handed out, and only once.
    pub open spec fn wf(&self) -> bool {
        self.initial@.to_multiset() == self.paths@.to_multiset().add(self.handed_out@.to_multiset())
    }

    pub fn new(paths: Vec<String>) -> (r: Backlog)
        ensures
            r.wf(),
            r.paths@ == paths@,
            r.initial@ == paths@,
            r.handed_out@ == Seq::<String>::empty(),
    {
        let ghost init = paths@;
        let r = Backlog { paths, initial: Ghost(init), handed_out: Ghost(Seq::empty()) };
        assert(r.initial@.to_multiset() =~= r.paths@.to_multiset().add(
            r.handed_out@.to_multiset(),
        ));
        r
    }

    /// Removes and returns one pending path, or `None` when none is left.
    pub fn try_pop(&mut self) -> (r: Option<String>)
        requires
            old(self).wf(),
        ensures
            final(self).wf(),
            final(self).initial@ == old(self).initial@,
            (r is None) == (old(self).paths@.len() == 0),
            r is None ==> final(self).paths@ == old(self).paths@ && final(self).handed_out@ == old(
                self,
            ).handed_out@,
            r is Some ==> {
                &&& r->0 == old(self).paths@.last()
                &&& final(self).paths@ == old(self).paths@.drop_last()
                &&& final(self).handed_out@ == old(self).handed_out@.push(r->0)
            },
    {
        let ghost before = self.paths@;
        let ghost h = self.handed_out@;
        match self.paths.pop() {
            None => None,
            Some(p) => {
                self.handed_out = Ghost(h.push(p));
                assert(before == self.paths@.push(p));
                assert(self.initial@.to_multiset() =~= self.paths@.to_multiset().add(
                    self.handed_out@.to_multiset(),
                ));
                Some(p)
            },
        }
    }

    pub fn len(&self) -> (r: usize)
        ensures
            r == self.paths@.len(),
    {
        self.paths.len()
    }

    pub fn is_empty(&self) -> (r: bool)
        ensures
            r == (self.paths@.len() == 0),
    {
        self.paths.len() == 0
    }
}

/// Once the backlog is empty, the paths handed out are exactly the paths it
/// was filled with: each was taken once, none twice and none skipped, however
/// many workers took turns at popping.
pub proof fn lemma_backlog_exhaustion(b: &Backlog)
    requires
        b.wf(),
        b.paths@.len() == 0,
    ensures
        b.handed_out@.to_multiset() == b.initial@.to_multiset(),
        b.handed_out@.len() == b.initial@.len(),
{
    assert(b.paths@.to_multiset() =~= Multiset::empty());
    assert(b.handed_out@.to_multiset() =~= b.initial@.to_multiset());
    assert(b.handed_out@.len() == b.handed_out@.to_multiset().len());
    assert(b.initial@.len() == b.initial@.to_multiset().len());
}

} // verus!
