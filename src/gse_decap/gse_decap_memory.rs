//! Memory for decapsulation: the buffers that receive PDUs, and the
//! reassemblies in progress, one per fragment id.
use vstd::prelude::*;
use crate::gse_decap::DecapContext;

verus! {

/// Errors of the decapsulation memory. A buffer that is refused is handed
/// back inside the error.
#[derive(Debug, PartialEq, Eq)]
pub enum DecapMemoryError {
    /// The memory already holds as many buffers as it may.
    StorageOverflow(Box<[u8]>),
    /// No buffer is free.
    StorageUnderflow,
    /// No reassembly is in progress for this fragment id.
    UndefinedId,
    /// The buffer is smaller than the largest PDU.
    BufferTooSmall(Box<[u8]>),
    /// A reassembly is already stored where this one should go.
    MemoryCorrupted,
}

/// A reassembly in progress and the buffer that receives its PDU.
pub type MemoryContext = (DecapContext, Box<[u8]>);

/// A stored reassembly: its context and its buffer's bytes.
pub type StoredFrag = (DecapContext, Seq<u8>);

/// Number of places that hold a reassembly.
pub open spec fn count_some(slots: Seq<Option<StoredFrag>>) -> nat
    decreases slots.len(),
{
    if slots.len() == 0 {
        0
    } else {
        count_some(slots.drop_last()) + if slots.last() is Some { 1nat } else { 0nat }
    }
}

/// Place of fragment id `frag_id` among `max_frag_id` places.
pub open spec fn place(frag_id: u8, max_frag_id: nat) -> int {
    frag_id as int % max_frag_id as int
}

/// The invariant of the memory's model: `max_frag_id` places, each holding
/// at most one reassembly, in the place of its fragment id; at most
/// `max_frag_id + 2` buffers in all, free or in a place; every buffer at
/// least `min_size` bytes long.
pub open spec fn memory_ok(max_frag_id: nat, min_size: nat, pool: Seq<Seq<u8>>, slots: Seq<Option<StoredFrag>>) -> bool {
    &&& slots.len() == max_frag_id
    &&& pool.len() + count_some(slots) <= max_frag_id + 2
    &&& forall|i: int| 0 <= i < pool.len() ==> (#[trigger] pool[i]).len() >= min_size
    &&& forall|i: int| 0 <= i < slots.len() && (#[trigger] slots[i]) is Some ==> {
        &&& place(slots[i]->Some_0.0.frag_id, max_frag_id) == i
        &&& slots[i]->Some_0.1.len() >= min_size
    }
}

pub proof fn lemma_count_update(s: Seq<Option<StoredFrag>>, i: int, v: Option<StoredFrag>)
    requires
        0 <= i < s.len(),
    ensures
        count_some(s.update(i, v)) + (if s[i] is Some { 1int } else { 0int }) == count_some(s) + (if v is Some { 1int } else { 0int }),
    decreases s.len(),
{
    let t = s.update(i, v);
    if i == s.len() - 1 {
        assert(t.drop_last() =~= s.drop_last());
    } else {
        assert(t.drop_last() =~= s.drop_last().update(i, v));
        lemma_count_update(s.drop_last(), i, v);
    }
}

proof fn lemma_count_none(n: nat)
    ensures
        count_some(Seq::new(n, |i: int| None::<StoredFrag>)) == 0,
    decreases n,
{
    if n > 0 {
        assert(Seq::new(n, |i: int| None::<StoredFrag>).drop_last() =~= Seq::new((n - 1) as nat, |i: int| None::<StoredFrag>));
        lemma_count_none((n - 1) as nat);
    }
}

/// Storage of PDU buffers and of reassemblies in progress.
///
/// The model: a pool of free buffers, of which `new_pdu` hands out the last,
/// and `max_frag_id` places for reassemblies, fragment id `id` going to
/// place `id % max_frag_id`. Buffers are lent: `new_pdu` and `new_frag` hand
/// one out, `take_frag` hands a reassembly with its buffer to the caller,
/// who gives it back with `save_frag`, or returns the buffer with
/// `provision_storage`.
pub trait GseDecapMemory: Sized {
    /// The implementation's invariant.
    spec fn wf(&self) -> bool;

    /// Number of places for reassemblies.
    spec fn max_frag_id(&self) -> nat;

    /// Smallest length a buffer must have.
    spec fn min_size(&self) -> nat;

    /// The free buffers' bytes.
    spec fn pool(&self) -> Seq<Seq<u8>>;

    /// The places: the reassembly each holds, with its buffer's bytes.
    spec fn slots(&self) -> Seq<Option<StoredFrag>>;

    /// An empty memory of `max_frag_id` places for buffers of at least
    /// `max_pdu_size` bytes. `max_delay` and `max_pdu_frag` are reserved.
    fn new(max_frag_id: usize, max_pdu_size: usize, max_delay: usize, max_pdu_frag: usize) -> (r: Self)
        requires
            max_frag_id <= usize::MAX - 2,
        ensures
            r.wf(),
            memory_ok(r.max_frag_id(), r.min_size(), r.pool(), r.slots()),
            r.max_frag_id() == max_frag_id,
            r.min_size() == max_pdu_size,
            r.pool() == Seq::<Seq<u8>>::empty(),
            r.slots() == Seq::new(max_frag_id as nat, |i: int| None::<StoredFrag>),
    ;

    /// Adds a buffer to the free pool, unless the memory holds as many
    /// buffers as it may or the buffer is too small.
    fn provision_storage(&mut self, storage: Box<[u8]>) -> (r: Result<(), DecapMemoryError>)
        requires
            old(self).wf(),
            memory_ok(old(self).max_frag_id(), old(self).min_size(), old(self).pool(), old(self).slots()),
        ensures
            final(self).wf(),
            memory_ok(final(self).max_frag_id(), final(self).min_size(), final(self).pool(), final(self).slots()),
            final(self).max_frag_id() == old(self).max_frag_id(),
            final(self).min_size() == old(self).min_size(),
            final(self).slots() == old(self).slots(),
            if old(self).pool().len() + count_some(old(self).slots()) >= old(self).max_frag_id() + 2 {
                r == Err::<(), DecapMemoryError>(DecapMemoryError::StorageOverflow(storage))
                    && final(self).pool() == old(self).pool()
            } else if storage@.len() < old(self).min_size() {
                r == Err::<(), DecapMemoryError>(DecapMemoryError::BufferTooSmall(storage))
                    && final(self).pool() == old(self).pool()
            } else {
                r is Ok && final(self).pool() == old(self).pool().push(storage@)
            },
    ;

    /// Takes the last buffer of the free pool.
    fn new_pdu(&mut self) -> (r: Result<Box<[u8]>, DecapMemoryError>)
        requires
            old(self).wf(),
            memory_ok(old(self).max_frag_id(), old(self).min_size(), old(self).pool(), old(self).slots()),
        ensures
            final(self).wf(),
            memory_ok(final(self).max_frag_id(), final(self).min_size(), final(self).pool(), final(self).slots()),
            final(self).max_frag_id() == old(self).max_frag_id(),
            final(self).min_size() == old(self).min_size(),
            final(self).slots() == old(self).slots(),
            if old(self).pool().len() == 0 {
                r == Err::<Box<[u8]>, DecapMemoryError>(DecapMemoryError::StorageUnderflow)
                    && final(self).pool() == old(self).pool()
            } else {
                r is Ok && r->Ok_0@ == old(self).pool().last() && final(self).pool() == old(self).pool().drop_last()
            },
    ;

    /// A buffer for a new reassembly of `context.frag_id`: a reassembly
    /// stored in its place is dropped and its buffer reused; else the last
    /// buffer of the free pool is taken. The place is left empty, for
    /// `save_frag`.
    fn new_frag(&mut self, context: DecapContext) -> (r: Result<MemoryContext, DecapMemoryError>)
        requires
            old(self).wf(),
            memory_ok(old(self).max_frag_id(), old(self).min_size(), old(self).pool(), old(self).slots()),
        ensures
            final(self).wf(),
            memory_ok(final(self).max_frag_id(), final(self).min_size(), final(self).pool(), final(self).slots()),
            final(self).max_frag_id() == old(self).max_frag_id(),
            final(self).min_size() == old(self).min_size(),
            ({
                let p = place(context.frag_id, old(self).max_frag_id());
                if old(self).max_frag_id() == 0 || (old(self).slots()[p] is None && old(self).pool().len() == 0) {
                    r == Err::<MemoryContext, DecapMemoryError>(DecapMemoryError::StorageUnderflow)
                        && final(self).pool() == old(self).pool() && final(self).slots() == old(self).slots()
                } else if old(self).slots()[p] is Some {
                    r is Ok && r->Ok_0.0 == context && r->Ok_0.1@ == old(self).slots()[p]->Some_0.1
                        && final(self).pool() == old(self).pool()
                        && final(self).slots() == old(self).slots().update(p, None)
                } else {
                    r is Ok && r->Ok_0.0 == context && r->Ok_0.1@ == old(self).pool().last()
                        && final(self).pool() == old(self).pool().drop_last()
                        && final(self).slots() == old(self).slots()
                }
            }),
    ;

    /// Hands out the reassembly of `frag_id`, emptying its place.
    fn take_frag(&mut self, frag_id: u8) -> (r: Result<MemoryContext, DecapMemoryError>)
        requires
            old(self).wf(),
            memory_ok(old(self).max_frag_id(), old(self).min_size(), old(self).pool(), old(self).slots()),
        ensures
            final(self).wf(),
            memory_ok(final(self).max_frag_id(), final(self).min_size(), final(self).pool(), final(self).slots()),
            final(self).max_frag_id() == old(self).max_frag_id(),
            final(self).min_size() == old(self).min_size(),
            final(self).pool() == old(self).pool(),
            ({
                let p = place(frag_id, old(self).max_frag_id());
                if old(self).max_frag_id() > 0 && old(self).slots()[p] is Some && old(self).slots()[p]->Some_0.0.frag_id == frag_id {
                    r is Ok && r->Ok_0.0 == old(self).slots()[p]->Some_0.0 && r->Ok_0.1@ == old(self).slots()[p]->Some_0.1
                        && final(self).slots() == old(self).slots().update(p, None)
                } else {
                    r == Err::<MemoryContext, DecapMemoryError>(DecapMemoryError::UndefinedId)
                        && final(self).slots() == old(self).slots()
                }
            }),
    ;

    /// Stores a reassembly in progress in the place of its fragment id, if
    /// that place is empty, the buffer is large enough and the memory may
    /// hold one more buffer.
    fn save_frag(&mut self, context: MemoryContext) -> (r: Result<(), DecapMemoryError>)
        requires
            old(self).wf(),
            memory_ok(old(self).max_frag_id(), old(self).min_size(), old(self).pool(), old(self).slots()),
        ensures
            final(self).wf(),
            memory_ok(final(self).max_frag_id(), final(self).min_size(), final(self).pool(), final(self).slots()),
            final(self).max_frag_id() == old(self).max_frag_id(),
            final(self).min_size() == old(self).min_size(),
            final(self).pool() == old(self).pool(),
            ({
                let p = place(context.0.frag_id, old(self).max_frag_id());
                if old(self).max_frag_id() == 0 || old(self).slots()[p] is Some {
                    r == Err::<(), DecapMemoryError>(DecapMemoryError::MemoryCorrupted)
                        && final(self).slots() == old(self).slots()
                } else if context.1@.len() < old(self).min_size() {
                    r == Err::<(), DecapMemoryError>(DecapMemoryError::BufferTooSmall(context.1))
                        && final(self).slots() == old(self).slots()
                } else if old(self).pool().len() + count_some(old(self).slots()) >= old(self).max_frag_id() + 2 {
                    r == Err::<(), DecapMemoryError>(DecapMemoryError::StorageOverflow(context.1))
                        && final(self).slots() == old(self).slots()
                } else {
                    r is Ok && final(self).slots() == old(self).slots().update(p, Some((context.0, context.1@)))
                }
            }),
    ;
}

/// Every buffer of a memory is free or in exactly one place, and there are
/// at most `max_frag_id + 2` of them: what `memory_ok`, which every method
/// keeps, states.
pub proof fn lemma_buffer_cap<T: GseDecapMemory>(m: T)
    requires
        memory_ok(m.max_frag_id(), m.min_size(), m.pool(), m.slots()),
    ensures
        m.pool().len() + count_some(m.slots()) <= m.max_frag_id() + 2,
{
}

/// Taking a reassembly and saving back what was taken leaves the places as
/// they were: `m1` is `m0` after `take_frag` handed out the reassembly in
/// place `p`, as its contract states, and `m2` is `m1` after `save_frag` of
/// that reassembly succeeded.
pub proof fn lemma_take_then_save<T: GseDecapMemory>(m0: T, m1: T, m2: T, p: int)
    requires
        memory_ok(m0.max_frag_id(), m0.min_size(), m0.pool(), m0.slots()),
        0 <= p < m0.slots().len(),
        m0.slots()[p] is Some,
        m1.slots() == m0.slots().update(p, None),
        m1.pool() == m0.pool(),
        m2.slots() == m1.slots().update(p, m0.slots()[p]),
        m2.pool() == m1.pool(),
    ensures
        m2.slots() == m0.slots(),
        m2.pool() == m0.pool(),
{
    assert(m2.slots() =~= m0.slots());
}

/// A memory of `max_frag_id` places for reassemblies, fragment id `id`
/// going to place `id % max_frag_id`, and a free pool; at most
/// `max_frag_id + 2` buffers in all.
#[derive(Debug, PartialEq, Eq)]
pub struct SimpleGseMemory {
    storages: Vec<Box<[u8]>>,
    frags: Vec<Option<MemoryContext>>,
    max_frag_id: usize,
    max_pdu_size: usize,
    /// Number of places that hold a reassembly.
    occupied: usize,
}

impl SimpleGseMemory {
    /// Buffers the memory holds beyond one per place.
    pub const MIN_MARGIN: usize = 2;

    /// Number of free buffers.
    pub fn free_len(&self) -> (r: usize)
        ensures
            r == self.pool().len(),
    {
        self.storages.len()
    }
}

/// The model of a place.
pub open spec fn frag_view(f: Option<MemoryContext>) -> Option<StoredFrag> {
    match f {
        Some((c, b)) => Some((c, b@)),
        None => None,
    }
}

impl GseDecapMemory for SimpleGseMemory {
    closed spec fn wf(&self) -> bool {
        &&& self.frags@.len() == self.max_frag_id
        &&& self.occupied == count_some(self.slots())
        &&& self.max_frag_id <= usize::MAX - 2
    }

    closed spec fn max_frag_id(&self) -> nat {
        self.max_frag_id as nat
    }

    closed spec fn min_size(&self) -> nat {
        self.max_pdu_size as nat
    }

    closed spec fn pool(&self) -> Seq<Seq<u8>> {
        self.storages@.map_values(|b: Box<[u8]>| b@)
    }

    closed spec fn slots(&self) -> Seq<Option<StoredFrag>> {
        self.frags@.map_values(|f: Option<MemoryContext>| frag_view(f))
    }

    fn new(max_frag_id: usize, max_pdu_size: usize, _max_delay: usize, _max_pdu_frag: usize) -> (r: Self) {
        let mut frags: Vec<Option<MemoryContext>> = Vec::new();
        let mut i: usize = 0;
        while i < max_frag_id
            invariant
                i <= max_frag_id,
                frags@.len() == i,
                forall|k: int| 0 <= k < i ==> (#[trigger] frags@[k]) is None,
            decreases max_frag_id - i,
        {
            frags.push(None);
            i = i + 1;
        }
        let r = Self { storages: Vec::new(), frags, max_frag_id, max_pdu_size, occupied: 0 };
        assert(r.slots() =~= Seq::new(max_frag_id as nat, |i: int| None::<StoredFrag>));
        assert(r.pool() =~= Seq::<Seq<u8>>::empty());
        proof {
            lemma_count_none(max_frag_id as nat);
        }
        r
    }

    fn provision_storage(&mut self, storage: Box<[u8]>) -> (r: Result<(), DecapMemoryError>) {
        if self.storages.len() + self.occupied >= self.max_frag_id + Self::MIN_MARGIN {
            return Err(DecapMemoryError::StorageOverflow(storage));
        }
        if storage.len() < self.max_pdu_size {
            return Err(DecapMemoryError::BufferTooSmall(storage));
        }
        let ghost before = self.storages@;
        self.storages.push(storage);
        assert(self.pool() =~= old(self).pool().push(storage@));
        Ok(())
    }

    fn new_pdu(&mut self) -> (r: Result<Box<[u8]>, DecapMemoryError>) {
        match self.storages.pop() {
            None => Err(DecapMemoryError::StorageUnderflow),
            Some(storage) => {
                assert(self.pool() =~= old(self).pool().drop_last());
                Ok(storage)
            },
        }
    }

    fn new_frag(&mut self, context: DecapContext) -> (r: Result<MemoryContext, DecapMemoryError>) {
        if self.max_frag_id == 0 {
            return Err(DecapMemoryError::StorageUnderflow);
        }
        let idx = context.frag_id as usize % self.max_frag_id;
        if self.frags[idx].is_none() {
            match self.storages.pop() {
                None => {
                    return Err(DecapMemoryError::StorageUnderflow);
                },
                Some(pdu) => {
                    assert(self.pool() =~= old(self).pool().drop_last());
                    return Ok((context, pdu));
                },
            }
        }
        let mut frag: Option<MemoryContext> = None;
        std::mem::swap(&mut self.frags[idx], &mut frag);
        proof {
            assert(self.slots() =~= old(self).slots().update(idx as int, None));
            lemma_count_update(old(self).slots(), idx as int, None);
        }
        self.occupied = self.occupied - 1;
        match frag {
            Some((_, pdu)) => Ok((context, pdu)),
            None => Err(DecapMemoryError::StorageUnderflow),
        }
    }

    fn take_frag(&mut self, frag_id: u8) -> (r: Result<MemoryContext, DecapMemoryError>) {
        if self.max_frag_id == 0 {
            return Err(DecapMemoryError::UndefinedId);
        }
        let idx = frag_id as usize % self.max_frag_id;
        let matches = match &self.frags[idx] {
            Some((context, _)) => context.frag_id == frag_id,
            None => false,
        };
        if !matches {
            return Err(DecapMemoryError::UndefinedId);
        }
        let mut frag: Option<MemoryContext> = None;
        std::mem::swap(&mut self.frags[idx], &mut frag);
        proof {
            assert(self.slots() =~= old(self).slots().update(idx as int, None));
            lemma_count_update(old(self).slots(), idx as int, None);
        }
        self.occupied = self.occupied - 1;
        match frag {
            Some(c) => Ok(c),
            None => Err(DecapMemoryError::UndefinedId),
        }
    }

    fn save_frag(&mut self, context: MemoryContext) -> (r: Result<(), DecapMemoryError>) {
        if self.max_frag_id == 0 {
            return Err(DecapMemoryError::MemoryCorrupted);
        }
        let idx = context.0.frag_id as usize % self.max_frag_id;
        if self.frags[idx].is_some() {
            return Err(DecapMemoryError::MemoryCorrupted);
        }
        if context.1.len() < self.max_pdu_size {
            let (_, buffer) = context;
            return Err(DecapMemoryError::BufferTooSmall(buffer));
        }
        if self.storages.len() + self.occupied >= self.max_frag_id + Self::MIN_MARGIN {
            let (_, buffer) = context;
            return Err(DecapMemoryError::StorageOverflow(buffer));
        }
        let ghost v = (context.0, context.1@);
        self.frags.set(idx, Some(context));
        proof {
            assert(self.slots() =~= old(self).slots().update(idx as int, Some(v)));
            lemma_count_update(old(self).slots(), idx as int, Some(v));
        }
        self.occupied = self.occupied + 1;
        Ok(())
    }
}

} // verus!
