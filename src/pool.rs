//! The slot pool: `N` progress slots and an admission count of `N` permits,
//! kept in lock-step so that the busy slots are exactly the permits handed out.

use vstd::prelude::*;

verus! {

/// Number of `true` entries in `s`.
pub open spec fn count_true(s: Seq<bool>) -> nat
    decreases s.len(),
{
    if s.len() == 0 {
        0
    } else {
        count_true(s.drop_last()) + if s.last() { 1nat } else { 0nat }
    }
}

proof fn lemma_count_bounded(s: Seq<bool>)
    ensures
        count_true(s) <= s.len(),
    decreases s.len(),
{
    if s.len() > 0 {
        lemma_count_bounded(s.drop_last());
    }
}

proof fn lemma_count_all_false(n: nat)
    ensures
        count_true(Seq::new(n, |i: int| false)) == 0,
    decreases n,
{
    if n > 0 {
        let s = Seq::new(n, |i: int| false);
        assert(s.drop_last() =~= Seq::new((n - 1) as nat, |i: int| false));
        lemma_count_all_false((n - 1) as nat);
    }
}

proof fn lemma_count_all_true(s: Seq<bool>)
    requires
        forall|i: int| 0 <= i < s.len() ==> s[i],
    ensures
        count_true(s) == s.len(),
    decreases s.len(),
{
    if s.len() > 0 {
        lemma_count_all_true(s.drop_last());
    }
}

proof fn lemma_count_update(s: Seq<bool>, i: int, b: bool)
    requires
        0 <= i < s.len(),
    ensures
        count_true(s.update(i, b)) + (if s[i] { 1int } else { 0int })
            == count_true(s) + (if b { 1int } else { 0int }),
    decreases s.len(),
{
    let t = s.update(i, b);
    if i == s.len() - 1 {
        assert(t.drop_last() =~= s.drop_last());
    } else {
        assert(t.drop_last() =~= s.drop_last().update(i, b));
        lemma_count_update(s.drop_last(), i, b);
    }
}

/// One progress slot: whether a transfer holds it, and what its bar shows.
pub struct Slot {
    pub busy: bool,
    pub label: String,
    pub total: u64,
    pub position: u64,
}

/// Why a pool could not be made.
#[derive(Debug, PartialEq, Eq, Structural)]
pub enum PoolError {
    /// A pool needs at least one slot.
    InvalidConfig,
}

/// The capability that `try_acquire` hands out: its holder owns one slot
/// until it gives the permit back through `release`. It cannot be copied,
/// so each acquisition is released at most once.
pub struct Permit {
    index: usize,
}

impl Permit {
    /// The slot that this permit owns.
    pub closed spec fn slot(&self) -> nat {
        self.index as nat
    }

    pub fn index(&self) -> (r: usize)
        ensures
            r == self.slot(),
    {
        self.index
    }
}

/// A fixed collection of slots with an admission count.
pub struct SlotPool {
    slots: Vec<Slot>,
    available: usize,
}

impl SlotPool {
    pub closed spec fn capacity(&self) -> nat {
        self.slots@.len()
    }

    pub closed spec fn permits(&self) -> nat {
        self.available as nat
    }

    pub closed spec fn busy_flags(&self) -> Seq<bool> {
        self.slots@.map_values(|s: Slot| s.busy)
    }

    pub closed spec fn labels(&self) -> Seq<Seq<char>> {
        self.slots@.map_values(|s: Slot| s.label@)
    }

    pub closed spec fn totals(&self) -> Seq<u64> {
        self.slots@.map_values(|s: Slot| s.total)
    }

    pub closed spec fn positions(&self) -> Seq<u64> {
        self.slots@.map_values(|s: Slot| s.position)
    }

    /// The pool's invariant: a busy slot for every permit handed out.
    pub closed spec fn wf(&self) -> bool {
        &&& self.available <= self.slots@.len()
        &&& count_true(self.busy_flags()) + self.available == self.slots@.len()
    }

    pub open spec fn busy_count(&self) -> nat {
        count_true(self.busy_flags())
    }

    /// What every slot shows, and how many slots there are, did not change.
    pub open spec fn same_display(&self, other: &SlotPool) -> bool {
        &&& self.capacity() == other.capacity()
        &&& self.labels() == other.labels()
        &&& self.totals() == other.totals()
        &&& self.positions() == other.positions()
    }

    /// `after` is `before` with free slot `i` taken and one permit used.
    pub open spec fn acquired(before: &SlotPool, after: &SlotPool, i: nat) -> bool {
        &&& i < before.capacity()
        &&& !before.busy_flags()[i as int]
        &&& before.permits() > 0
        &&& after.busy_flags() == before.busy_flags().update(i as int, true)
        &&& after.permits() == before.permits() - 1
        &&& after.same_display(before)
    }

    /// `after` is `before` with busy slot `i` freed and its permit returned.
    pub open spec fn released(before: &SlotPool, after: &SlotPool, i: nat) -> bool {
        &&& i < before.capacity()
        &&& before.busy_flags()[i as int]
        &&& after.busy_flags() == before.busy_flags().update(i as int, false)
        &&& after.permits() == before.permits() + 1
        &&& after.same_display(before)
    }

    /// Every per-slot view has one entry per slot.
    pub proof fn lemma_views_len(&self)
        ensures
            self.busy_flags().len() == self.capacity(),
            self.labels().len() == self.capacity(),
            self.totals().len() == self.capacity(),
            self.positions().len() == self.capacity(),
    {
    }

    /// A pool of `capacity` free slots, each showing an empty bar.
    pub fn new(capacity: usize) -> (r: Result<SlotPool, PoolError>)
        ensures
            capacity == 0 <==> r is Err,
            r is Err ==> r == Err::<SlotPool, PoolError>(PoolError::InvalidConfig),
            r matches Ok(p) ==> {
                &&& p.wf()
                &&& p.capacity() == capacity
                &&& p.permits() == capacity
                &&& p.busy_flags() == Seq::new(capacity as nat, |i: int| false)
                &&& p.labels() == Seq::new(capacity as nat, |i: int| Seq::<char>::empty())
                &&& p.totals() == Seq::new(capacity as nat, |i: int| 0u64)
                &&& p.positions() == Seq::new(capacity as nat, |i: int| 0u64)
            },
    {
        if capacity == 0 {
            return Err(PoolError::InvalidConfig);
        }
        let mut slots: Vec<Slot> = Vec::new();
        let mut k: usize = 0;
        while k < capacity
            invariant
                k <= capacity,
                slots@.len() == k,
                forall|j: int|
                    0 <= j < k ==> {
                        &&& !(#[trigger] slots@[j]).busy
                        &&& slots@[j].label@ == Seq::<char>::empty()
                        &&& slots@[j].total == 0
                        &&& slots@[j].position == 0
                    },
            decreases capacity - k,
        {
            slots.push(Slot { busy: false, label: String::new(), total: 0, position: 0 });
            k = k + 1;
        }
        let p = SlotPool { slots, available: capacity };
        proof {
            assert(p.busy_flags() =~= Seq::new(capacity as nat, |i: int| false));
            assert(p.labels() =~= Seq::new(capacity as nat, |i: int| Seq::<char>::empty()));
            assert(p.totals() =~= Seq::new(capacity as nat, |i: int| 0u64));
            assert(p.positions() =~= Seq::new(capacity as nat, |i: int| 0u64));
            lemma_count_all_false(capacity as nat);
        }
        Ok(p)
    }

    /// Takes a permit and a free slot, if a permit is left; the caller that
    /// gets `None` waits for a release and asks again.
    pub fn try_acquire(&mut self) -> (r: Option<Permit>)
        requires
            old(self).wf(),
        ensures
            final(self).wf(),
            r is Some <==> old(self).permits() > 0,
            r matches Some(p) ==> SlotPool::acquired(old(self), final(self), p.slot()),
            r is None ==> *final(self) == *old(self),
    {
        if self.available == 0 {
            return None;
        }
        let n = self.slots.len();
        let mut i: usize = 0;
        while i < n
            invariant
                n == self.slots@.len(),
                i <= n,
                *self == *old(self),
                self.wf(),
                self.available > 0,
                forall|j: int| 0 <= j < i ==> (#[trigger] self.slots@[j]).busy,
            decreases n - i,
        {
            if !self.slots[i].busy {
                let ghost before = *self;
                proof {
                    lemma_count_update(before.busy_flags(), i as int, true);
                    assert(before.busy_flags().update(i as int, true)[i as int]);
                }
                self.slots[i].busy = true;
                self.available = self.available - 1;
                proof {
                    assert(self.busy_flags() =~= before.busy_flags().update(i as int, true));
                    assert(self.labels() =~= before.labels());
                    assert(self.totals() =~= before.totals());
                    assert(self.positions() =~= before.positions());
                }
                return Some(Permit { index: i });
            }
            i = i + 1;
        }
        proof {
            lemma_count_all_true(self.busy_flags());
        }
        None
    }
}

impl SlotPool {
    /// Frees the permit's slot and gives the permit back.
    pub fn release(&mut self, permit: Permit)
        requires
            old(self).wf(),
            permit.slot() < old(self).capacity(),
            old(self).busy_flags()[permit.slot() as int],
        ensures
            final(self).wf(),
            SlotPool::released(old(self), final(self), permit.slot()),
    {
        let i = permit.index;
        let n = self.slots.len();
        let ghost before = *self;
        proof {
            lemma_count_update(before.busy_flags(), i as int, false);
            assert(self.available < n);
        }
        self.slots[i].busy = false;
        self.available = self.available + 1;
        proof {
            assert(self.busy_flags() =~= before.busy_flags().update(i as int, false));
            assert(self.labels() =~= before.labels());
            assert(self.totals() =~= before.totals());
            assert(self.positions() =~= before.positions());
        }
    }

    /// Overwrites what the permit's slot shows.
    pub fn update(&mut self, permit: &Permit, total: u64, position: u64, label: String)
        requires
            old(self).wf(),
            permit.slot() < old(self).capacity(),
        ensures
            final(self).wf(),
            final(self).capacity() == old(self).capacity(),
            final(self).permits() == old(self).permits(),
            final(self).busy_flags() == old(self).busy_flags(),
            final(self).labels() == old(self).labels().update(permit.slot() as int, label@),
            final(self).totals() == old(self).totals().update(permit.slot() as int, total),
            final(self).positions() == old(self).positions().update(
                permit.slot() as int,
                position,
            ),
    {
        let i = permit.index;
        let ghost before = *self;
        self.slots[i].total = total;
        self.slots[i].position = position;
        self.slots[i].label = label;
        proof {
            assert(self.busy_flags() =~= before.busy_flags());
            assert(self.labels() =~= before.labels().update(i as int, label@));
            assert(self.totals() =~= before.totals().update(i as int, total));
            assert(self.positions() =~= before.positions().update(i as int, position));
        }
    }

    /// Moves the permit's slot forward by `n`.
    pub fn advance(&mut self, permit: &Permit, n: u64)
        requires
            old(self).wf(),
            permit.slot() < old(self).capacity(),
            old(self).positions()[permit.slot() as int] + n <= u64::MAX,
        ensures
            final(self).wf(),
            final(self).capacity() == old(self).capacity(),
            final(self).permits() == old(self).permits(),
            final(self).busy_flags() == old(self).busy_flags(),
            final(self).labels() == old(self).labels(),
            final(self).totals() == old(self).totals(),
            final(self).positions() == old(self).positions().update(
                permit.slot() as int,
                (old(self).positions()[permit.slot() as int] + n) as u64,
            ),
    {
        let i = permit.index;
        let ghost before = *self;
        let p = self.slots[i].position;
        self.slots[i].position = p + n;
        proof {
            assert(self.busy_flags() =~= before.busy_flags());
            assert(self.labels() =~= before.labels());
            assert(self.totals() =~= before.totals());
            assert(self.positions() =~= before.positions().update(i as int, (p + n) as u64));
        }
    }

    pub fn capacity_of(&self) -> (r: usize)
        ensures
            r == self.capacity(),
    {
        self.slots.len()
    }

    pub fn available_permits(&self) -> (r: usize)
        ensures
            r == self.permits(),
    {
        self.available
    }

    /// How many slots are busy, counted over the slots themselves.
    pub fn busy_slots(&self) -> (r: usize)
        ensures
            r == self.busy_count(),
    {
        let n = self.slots.len();
        let mut k: usize = 0;
        let mut c: usize = 0;
        while k < n
            invariant
                n == self.slots@.len(),
                k <= n,
                c == count_true(self.busy_flags().subrange(0, k as int)),
                c <= k,
            decreases n - k,
        {
            proof {
                let s = self.busy_flags().subrange(0, k as int + 1);
                assert(s.drop_last() =~= self.busy_flags().subrange(0, k as int));
            }
            if self.slots[k].busy {
                c = c + 1;
            }
            k = k + 1;
        }
        proof {
            assert(self.busy_flags().subrange(0, n as int) =~= self.busy_flags());
        }
        c
    }

    pub fn is_busy(&self, i: usize) -> (r: bool)
        requires
            i < self.capacity(),
        ensures
            r == self.busy_flags()[i as int],
    {
        self.slots[i].busy
    }

    pub fn total(&self, i: usize) -> (r: u64)
        requires
            i < self.capacity(),
        ensures
            r == self.totals()[i as int],
    {
        self.slots[i].total
    }

    pub fn position(&self, i: usize) -> (r: u64)
        requires
            i < self.capacity(),
        ensures
            r == self.positions()[i as int],
    {
        self.slots[i].position
    }

    pub fn label(&self, i: usize) -> (r: &str)
        requires
            i < self.capacity(),
        ensures
            r@ == self.labels()[i as int],
    {
        self.slots[i].label.as_str()
    }
}

/// In every well-formed pool the busy slots number exactly the permits
/// handed out, and never more than the capacity: each acquisition left
/// unreleased keeps one permit out of the pool.
pub proof fn lemma_busy_matches_permits(pool: &SlotPool)
    requires
        pool.wf(),
    ensures
        pool.busy_count() <= pool.capacity(),
        pool.busy_count() == pool.capacity() - pool.permits(),
        pool.permits() <= pool.capacity(),
{
    pool.lemma_views_len();
    lemma_count_bounded(pool.busy_flags());
}

/// Releasing the slot that an acquisition took gives back the pool as it
/// was before, in slots, permits and display.
pub proof fn lemma_release_undoes_acquire(
    before: &SlotPool,
    held: &SlotPool,
    after: &SlotPool,
    i: nat,
)
    requires
        SlotPool::acquired(before, held, i),
        SlotPool::released(held, after, i),
    ensures
        after.busy_flags() == before.busy_flags(),
        after.permits() == before.permits(),
        after.same_display(before),
{
    before.lemma_views_len();
    assert(after.busy_flags() =~= before.busy_flags());
}

} // verus!
