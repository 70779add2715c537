use vstd::prelude::*;

verus! {

/// A fixed-capacity uniform sample of a stream of token counts (Algorithm R).
///
/// `observed` is the whole stream offered so far; only `items` is kept at run time.
pub struct Reservoir {
    pub items: Vec<u64>,
    pub capacity: usize,
    pub seen: u64,
    pub observed: Ghost<Seq<u64>>,
}

impl Reservoir {
    /// The sample holds every observation while the stream fits, and only
    /// observations of the stream once it has overflowed.
    pub open spec fn wf(&self) -> bool {
        &&& self.seen as int == self.observed@.len()
        &&& self.items@.len() == if self.seen <= self.capacity {
            self.seen as int
        } else {
            self.capacity as int
        }
        &&& self.seen <= self.capacity ==> self.items@ == self.observed@
        &&& forall|i: int|
            0 <= i < self.items@.len() ==> #[trigger] self.observed@.contains(self.items@[i])
    }

    pub fn new(capacity: usize) -> (r: Reservoir)
        ensures
            r.wf(),
            r.capacity == capacity,
            r.seen == 0,
            r.observed@ == Seq::<u64>::empty(),
            r.items@ == Seq::<u64>::empty(),
    {
        Reservoir { items: Vec::new(), capacity, seen: 0, observed: Ghost(Seq::empty()) }
    }

    /// One step of Algorithm R, with `j` the index drawn uniformly from `0..=seen`.
    pub fn offer_drawn(&mut self, x: u64, j: u64)
        requires
            old(self).wf(),
            old(self).seen < u64::MAX,
            j <= old(self).seen,
        ensures
            final(self).wf(),
            final(self).capacity == old(self).capacity,
            final(self).seen == old(self).seen + 1,
            final(self).observed@ == old(self).observed@.push(x),
            final(self).items@ == if old(self).seen < old(self).capacity {
                old(self).items@.push(x)
            } else if j < old(self).capacity {
                old(self).items@.update(j as int, x)
            } else {
                old(self).items@
            },
    {
        let ghost prev = self.observed@;
        if (self.seen as u128) < (self.capacity as u128) {
            self.items.push(x);
        } else if (j as u128) < (self.capacity as u128) {
            self.items.set(j as usize, x);
        }
        self.seen = self.seen + 1;
        self.observed = Ghost(prev.push(x));
        proof {
            assert forall|i: int| 0 <= i < self.items@.len() implies #[trigger] self.observed@.contains(
                self.items@[i],
            ) by {
                if i < old(self).items@.len() && self.items@[i] == old(self).items@[i] {
                    assert(prev.contains(old(self).items@[i]));
                    let k = choose|k: int| 0 <= k < prev.len() && prev[k] == old(self).items@[i];
                    assert(self.observed@[k] == prev[k]);
                } else {
                    assert(self.items@[i] == x);
                    assert(self.observed@[prev.len() as int] == x);
                }
            }
        }
    }

    /// Offers one observation, drawing the replacement index at random.
    pub fn offer(&mut self, x: u64)
        requires
            old(self).wf(),
            old(self).seen < u64::MAX,
        ensures
            final(self).wf(),
            final(self).capacity == old(self).capacity,
            final(self).seen == old(self).seen + 1,
            final(self).observed@ == old(self).observed@.push(x),
            old(self).seen < old(self).capacity ==> final(self).items@ == old(self).items@.push(x),
            old(self).seen >= old(self).capacity ==> (final(self).items@ == old(self).items@ || exists|
                j: int,
            | 0 <= j < old(self).capacity && final(self).items@ == old(self).items@.update(j, x)),
    {
        let j = draw_index(self.seen);
        self.offer_drawn(x, j);
    }
}

/// Relies on rand::Rng::gen_range with rand::thread_rng: a value drawn from `0..=bound`.
#[verifier::external_body]
fn draw_index(bound: u64) -> (r: u64)
    ensures
        r <= bound,
{
    rand::Rng::gen_range(&mut rand::thread_rng(), 0..=bound)
}

/// While a reservoir has seen no more than its capacity, it holds exactly the
/// observations offered to it, in the order they came.
pub proof fn lemma_small_stream_exact(r: &Reservoir)
    requires
        r.wf(),
        r.seen <= r.capacity,
    ensures
        r.items@ == r.observed@,
        r.items@.to_multiset() == r.observed@.to_multiset(),
{
}

} // verus!
