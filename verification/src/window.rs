//! The sliding window of recent probe outcomes: a fixed-capacity ring buffer
//! holding the last ten `Status` observations, newest first.

use vstd::prelude::*;
use crate::status::Status;

verus! {

/// The fixed capacity of the sliding window: the bad ratio is always
/// computed against this capacity, not the current occupancy.
pub const WINDOW_CAPACITY: usize = 10;

/// A fixed-capacity ring buffer of probe outcomes. It wraps an
/// `arraydeque::ArrayDeque` with capacity ten and wrapping overflow
/// behaviour; Verus sees it only through `ring_statuses` and the
/// trusted operations below.
#[verifier::external_body]
pub struct Ring {
    inner: arraydeque::ArrayDeque<Status, 10, arraydeque::Wrapping>,
}

/// The observations a ring holds, front to back (newest observation first).
pub uninterp spec fn ring_statuses(d: Ring) -> Seq<Status>;

/// Relies on `arraydeque::ArrayDeque::new`: the new deque is empty.
#[verifier::external_body]
fn ring_new() -> (r: Ring)
    ensures
        ring_statuses(r) == Seq::<Status>::empty(),
{
    Ring { inner: arraydeque::ArrayDeque::new() }
}

/// Relies on `arraydeque::ArrayDeque::push_front` (wrapping behaviour): the
/// element is prepended; when the deque is full the back element is evicted
/// and returned.
#[verifier::external_body]
fn ring_push_front(d: &mut Ring, s: Status) -> (evicted: Option<Status>)
    ensures
        ring_statuses(*old(d)).len() < 10 ==> {
            &&& ring_statuses(*final(d)) == seq![s] + ring_statuses(*old(d))
            &&& evicted is None
        },
        ring_statuses(*old(d)).len() >= 10 ==> {
            &&& ring_statuses(*final(d)) == seq![s] + ring_statuses(*old(d)).drop_last()
            &&& evicted == Some(ring_statuses(*old(d)).last())
        },
{
    d.inner.push_front(s)
}

/// Relies on `arraydeque::ArrayDeque::iter`: yields the elements front to
/// back; the body collects them into a vector.
#[verifier::external_body]
fn ring_to_vec(d: &Ring) -> (v: Vec<Status>)
    ensures
        v@ == ring_statuses(*d),
{
    d.inner.iter().copied().collect()
}

/// How pushing one observation changes the window contents: the new
/// observation is prepended, and when the window is full the oldest
/// observation is dropped.
pub open spec fn spec_push(obs: Seq<Status>, s: Status) -> Seq<Status> {
    if obs.len() < WINDOW_CAPACITY {
        seq![s] + obs
    } else {
        seq![s] + obs.drop_last()
    }
}

/// The number of bad (non-`Healthy`) observations among `obs`.
pub open spec fn count_bad(obs: Seq<Status>) -> int
    decreases obs.len(),
{
    if obs.len() == 0 {
        0
    } else {
        count_bad(obs.drop_last()) + (if obs.last() == Status::Healthy {
            0int
        } else {
            1int
        })
    }
}

pub broadcast proof fn lemma_count_bad_bounds(obs: Seq<Status>)
    ensures
        0 <= #[trigger] count_bad(obs) <= obs.len(),
    decreases obs.len(),
{
    if obs.len() > 0 {
        lemma_count_bad_bounds(obs.drop_last());
    }
}

/// The sliding window of the last ten probe outcomes for one URL, newest
/// first.
pub struct Window {
    ring: Ring,
}

impl Window {
    /// The observations the window holds, newest first.
    pub closed spec fn obs(self) -> Seq<Status> {
        ring_statuses(self.ring)
    }

    /// The window never holds more observations than its capacity.
    pub open spec fn wf(self) -> bool {
        self.obs().len() <= WINDOW_CAPACITY
    }

    /// An empty window.
    pub fn new() -> (w: Window)
        ensures
            w.obs() == Seq::<Status>::empty(),
            w.wf(),
    {
        Window { ring: ring_new() }
    }

    /// Record one observation, evicting the oldest when full.
    pub fn push(&mut self, s: Status)
        requires
            old(self).wf(),
        ensures
            final(self).obs() == spec_push(old(self).obs(), s),
            final(self).wf(),
    {
        let _ = ring_push_front(&mut self.ring, s);
    }

    /// The number of bad observations currently in the window.
    pub fn bad_count(&self) -> (n: usize)
        requires
            self.wf(),
        ensures
            n == count_bad(self.obs()),
    {
        let v = ring_to_vec(&self.ring);
        let mut n: usize = 0;
        let mut i: usize = 0;
        proof {
            assert(v@.subrange(0, 0) =~= Seq::<Status>::empty());
        }
        while i < v.len()
            invariant
                i <= v@.len(),
                v@ == self.obs(),
                v@.len() <= WINDOW_CAPACITY,
                n == count_bad(v@.subrange(0, i as int)),
                n <= i,
            decreases v@.len() - i,
        {
            proof {
                assert(v@.subrange(0, i + 1).drop_last() =~= v@.subrange(0, i as int));
                assert(v@.subrange(0, i + 1).last() == v@[i as int]);
            }
            if !v[i].is_good() {
                n = n + 1;
            }
            i = i + 1;
        }
        proof {
            assert(v@.subrange(0, v@.len() as int) =~= v@);
        }
        n
    }
}

} // verus!
