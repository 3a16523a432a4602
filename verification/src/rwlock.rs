//! Writer-priority read-write lock. The whole lock state is one `u64`: the
//! low 30 bits count the readers, bit 30 says a writer holds the lock, and
//! the high 32 bits count the writers waiting for it. While any writer
//! waits no new reader is let in, and a writer that enters or leaves keeps
//! the marks of the others that still wait. The atomic word and the cell
//! that shares the value between threads belong to the caller; every
//! decision on the word is made here.

use vstd::prelude::*;

verus! {

/// Largest number of readers the state can count.
pub const READER_MASK: u64 = 0x3fff_ffff;

/// Set while a writer holds the lock.
pub const WRITER_HOLDING: u64 = 0x4000_0000;

/// One waiting writer: the unit of the count in the high 32 bits.
pub const WRITER_WAITING: u64 = 0x1_0000_0000;

/// Most writers that can wait at once.
pub const MAX_WAITING_WRITERS: u64 = 0xffff_ffff;

/// Number of readers holding the lock in state `s`.
pub open spec fn readers(s: u64) -> u64 {
    s & READER_MASK
}

/// A writer holds the lock in state `s`.
pub open spec fn writer_holding(s: u64) -> bool {
    s & WRITER_HOLDING != 0
}

/// Number of writers waiting for the lock in state `s`.
pub open spec fn waiting_writers(s: u64) -> u64 {
    s >> 32
}

/// Readers and a writer never hold the lock together.
pub open spec fn exclusive(s: u64) -> bool {
    !(writer_holding(s) && readers(s) > 0)
}

/// A new reader may enter: no writer holds or waits, and the reader count
/// has room.
pub open spec fn admits_reader(s: u64) -> bool {
    !writer_holding(s) && waiting_writers(s) == 0 && readers(s) < READER_MASK
}

/// A waiting writer may take the lock: no reader and no other writer holds
/// it.
pub open spec fn admits_writer(s: u64) -> bool {
    readers(s) == 0 && !writer_holding(s) && waiting_writers(s) > 0
}

/// State after a writer announces that it waits (`fetch_add` of one
/// waiting writer).
pub open spec fn after_writer_announced(s: u64) -> u64 {
    (s + WRITER_WAITING) as u64
}

/// State after a waiting writer enters: it no longer waits, it holds.
pub open spec fn after_writer_entered(s: u64) -> u64 {
    (s - WRITER_WAITING + WRITER_HOLDING) as u64
}

/// State after a reader leaves (`fetch_sub(1)`, which wraps).
pub open spec fn after_reader_released(s: u64) -> u64 {
    if s == 0 {
        u64::MAX
    } else {
        (s - 1) as u64
    }
}

/// State after the writer leaves (`fetch_and`): the holding bit cleared,
/// the other writers' marks kept.
pub open spec fn after_writer_released(s: u64) -> u64 {
    s & !WRITER_HOLDING
}

/// The state a reader installs when it enters from `s`, or `None` when it
/// must wait.
pub fn admit_reader(s: u64) -> (r: Option<u64>)
    ensures
        r is Some <==> admits_reader(s),
        r is Some ==> r.unwrap() == s + 1,
{
    if s & WRITER_HOLDING == 0 && s >> 32u64 == 0 && s & READER_MASK != READER_MASK {
        assert(s >> 32u64 == 0 ==> s < WRITER_WAITING) by (bit_vector);
        assert(s & READER_MASK <= READER_MASK) by (bit_vector);
        Some(s + 1)
    } else {
        assert(s & READER_MASK <= READER_MASK) by (bit_vector);
        None
    }
}

/// The state a waiting writer installs when it takes the lock from `s`, or
/// `None` when it must wait.
pub fn admit_writer(s: u64) -> (r: Option<u64>)
    ensures
        r is Some <==> admits_writer(s),
        r is Some ==> r.unwrap() == after_writer_entered(s),
{
    if s & READER_MASK != 0 || s & WRITER_HOLDING != 0 || s >> 32u64 == 0 {
        None
    } else {
        assert(s >> 32u64 != 0 && s & WRITER_HOLDING == 0 ==> s >= WRITER_WAITING && s
            - WRITER_WAITING + WRITER_HOLDING <= u64::MAX) by (bit_vector);
        Some(s - WRITER_WAITING + WRITER_HOLDING)
    }
}

/// The lock as a value: its state word and the protected value. Shared
/// between threads, the word lives in an atomic and every atomic operation
/// on it is one of the steps below.
pub struct RwLock<T> {
    state: u64,
    data: T,
}

/// Handed out to a reader that entered; given back by `release_read`.
pub struct RwLockReadGuard {
    held: (),
}

/// Handed out to the writer that entered; given back by `release_write`.
pub struct RwLockWriteGuard {
    held: (),
}

impl<T> RwLock<T> {
    /// The state word.
    pub closed spec fn state(&self) -> u64 {
        self.state
    }

    /// The protected value.
    pub closed spec fn data(&self) -> T {
        self.data
    }

    /// A free lock around `data`: no reader, no writer holding or waiting.
    pub fn new(data: T) -> (l: Self)
        ensures
            l.state() == 0,
            l.data() == data,
    {
        RwLock { state: 0, data }
    }

    /// One attempt to enter as a reader: let in by `admit_reader`, the
    /// reader count grows by one; refused, nothing changes.
    pub fn try_read(&mut self) -> (g: Option<RwLockReadGuard>)
        ensures
            g is Some <==> admits_reader(old(self).state()),
            final(self).state() == if g is Some {
                (old(self).state() + 1) as u64
            } else {
                old(self).state()
            },
            final(self).data() == old(self).data(),
    {
        match admit_reader(self.state) {
            Some(t) => {
                self.state = t;
                Some(RwLockReadGuard { held: () })
            },
            None => None,
        }
    }

    /// Announce a waiting writer: from now on no new reader is let in until
    /// it has entered.
    pub fn announce_writer(&mut self)
        requires
            waiting_writers(old(self).state()) < MAX_WAITING_WRITERS,
        ensures
            final(self).state() == after_writer_announced(old(self).state()),
            final(self).data() == old(self).data(),
    {
        let s = self.state;
        assert(s >> 32u64 < MAX_WAITING_WRITERS ==> s + WRITER_WAITING <= u64::MAX)
            by (bit_vector);
        self.state = s + WRITER_WAITING;
    }

    /// One attempt of a waiting writer to enter: let in by `admit_writer`,
    /// it stops waiting and holds the lock; refused, nothing changes.
    pub fn try_write(&mut self) -> (g: Option<RwLockWriteGuard>)
        ensures
            g is Some <==> admits_writer(old(self).state()),
            final(self).state() == if g is Some {
                after_writer_entered(old(self).state())
            } else {
                old(self).state()
            },
            final(self).data() == old(self).data(),
    {
        match admit_writer(self.state) {
            Some(t) => {
                self.state = t;
                Some(RwLockWriteGuard { held: () })
            },
            None => None,
        }
    }

    /// The protected value, as a reader sees it.
    pub fn read_value(&self, guard: &RwLockReadGuard) -> (v: &T)
        requires
            readers(self.state()) > 0,
        ensures
            *v == self.data(),
    {
        &self.data
    }

    /// The writer replaces the protected value.
    pub fn write_value(&mut self, guard: &RwLockWriteGuard, value: T)
        requires
            writer_holding(old(self).state()),
        ensures
            final(self).data() == value,
            final(self).state() == old(self).state(),
    {
        self.data = value;
    }

    /// A reader leaves: one less in the count.
    pub fn release_read(&mut self, guard: RwLockReadGuard)
        requires
            readers(old(self).state()) > 0,
        ensures
            final(self).state() == after_reader_released(old(self).state()),
            final(self).data() == old(self).data(),
    {
        let RwLockReadGuard { held: () } = guard;
        let s = self.state;
        assert(s & READER_MASK > 0 ==> s != 0) by (bit_vector);
        self.state = s - 1;
    }

    /// The writer leaves: the holding bit is cleared, waiting writers stay
    /// counted.
    pub fn release_write(&mut self, guard: RwLockWriteGuard)
        ensures
            final(self).state() == after_writer_released(old(self).state()),
            final(self).data() == old(self).data(),
    {
        let RwLockWriteGuard { held: () } = guard;
        self.state = self.state & !WRITER_HOLDING;
    }

    /// The state word and the value, to be placed in an atomic and a cell
    /// when the lock is shared between threads.
    pub fn into_parts(self) -> (r: (u64, T))
        ensures
            r == (self.state(), self.data()),
    {
        (self.state, self.data)
    }
}

/// Letting a reader in keeps readers and writers apart: the count grows by
/// one and no writer holds or waits.
pub proof fn law_reader_entry(s: u64)
    requires
        admits_reader(s),
    ensures
        readers((s + 1) as u64) == readers(s) + 1,
        !writer_holding((s + 1) as u64),
        waiting_writers((s + 1) as u64) == 0,
        exclusive((s + 1) as u64),
{
    assert(s >> 32u64 == 0 ==> s < WRITER_WAITING) by (bit_vector);
    let t = (s + 1) as u64;
    assert(s & WRITER_HOLDING == 0 && s >> 32u64 == 0 && s & READER_MASK < READER_MASK && t == s
        + 1 ==> {
        &&& t & READER_MASK == (s & READER_MASK) + 1
        &&& t & WRITER_HOLDING == 0
        &&& t >> 32u64 == 0
    }) by (bit_vector);
}

/// A waiting writer that enters holds the lock alone, and the other
/// writers stay counted as waiting.
pub proof fn law_writer_entry(s: u64)
    requires
        admits_writer(s),
    ensures
        readers(after_writer_entered(s)) == 0,
        writer_holding(after_writer_entered(s)),
        waiting_writers(after_writer_entered(s)) == waiting_writers(s) - 1,
        exclusive(after_writer_entered(s)),
{
    let t = after_writer_entered(s);
    assert(s >> 32u64 != 0 && s & WRITER_HOLDING == 0 ==> s >= WRITER_WAITING && s
        - WRITER_WAITING + WRITER_HOLDING <= u64::MAX) by (bit_vector);
    assert(s & READER_MASK == 0 && s & WRITER_HOLDING == 0 && s >> 32u64 != 0 && t == s
        - WRITER_WAITING + WRITER_HOLDING ==> {
        &&& t & READER_MASK == 0
        &&& t & WRITER_HOLDING != 0
        &&& t >> 32u64 == (s >> 32u64) - 1
    }) by (bit_vector);
}

/// A writer announcing itself adds one waiting writer and changes nothing
/// else.
pub proof fn law_writer_announce(s: u64)
    requires
        waiting_writers(s) < MAX_WAITING_WRITERS,
    ensures
        waiting_writers(after_writer_announced(s)) == waiting_writers(s) + 1,
        readers(after_writer_announced(s)) == readers(s),
        writer_holding(after_writer_announced(s)) == writer_holding(s),
        exclusive(s) ==> exclusive(after_writer_announced(s)),
{
    let t = after_writer_announced(s);
    assert(s >> 32u64 < MAX_WAITING_WRITERS ==> s + WRITER_WAITING <= u64::MAX) by (bit_vector);
    assert(s >> 32u64 < MAX_WAITING_WRITERS && t == s + WRITER_WAITING ==> {
        &&& t >> 32u64 == (s >> 32u64) + 1
        &&& t & READER_MASK == s & READER_MASK
        &&& (t & WRITER_HOLDING != 0) == (s & WRITER_HOLDING != 0)
    }) by (bit_vector);
}

/// A reader leaving takes one from the count and touches no writer mark.
pub proof fn law_reader_exit(s: u64)
    requires
        readers(s) > 0,
    ensures
        readers(after_reader_released(s)) == readers(s) - 1,
        writer_holding(after_reader_released(s)) == writer_holding(s),
        waiting_writers(after_reader_released(s)) == waiting_writers(s),
        exclusive(s) ==> exclusive(after_reader_released(s)),
{
    assert(s & READER_MASK > 0 ==> s != 0) by (bit_vector);
    let t = (s - 1) as u64;
    assert(s & READER_MASK > 0 && t == s - 1 ==> {
        &&& t & READER_MASK == (s & READER_MASK) - 1
        &&& (t & WRITER_HOLDING != 0) == (s & WRITER_HOLDING != 0)
        &&& t >> 32u64 == s >> 32u64
    }) by (bit_vector);
}

/// The writer leaving clears the holding bit and keeps the readers' count
/// and the waiting writers.
pub proof fn law_writer_exit(s: u64)
    ensures
        readers(after_writer_released(s)) == readers(s),
        !writer_holding(after_writer_released(s)),
        waiting_writers(after_writer_released(s)) == waiting_writers(s),
        exclusive(after_writer_released(s)),
{
    assert((s & !WRITER_HOLDING) & READER_MASK == s & READER_MASK) by (bit_vector);
    assert((s & !WRITER_HOLDING) & WRITER_HOLDING == 0) by (bit_vector);
    assert((s & !WRITER_HOLDING) >> 32u64 == s >> 32u64) by (bit_vector);
}

/// Readers share the lock: whenever no writer holds or waits and the count
/// has room, a new reader is let in, whatever number of readers is already
/// inside, and it joins them.
pub proof fn law_readers_share(s: u64)
    requires
        !writer_holding(s),
        waiting_writers(s) == 0,
        readers(s) < READER_MASK,
    ensures
        admits_reader(s),
        readers((s + 1) as u64) == readers(s) + 1,
{
    law_reader_entry(s);
}

/// A reader is refused only for a reason: a writer holds the lock, a writer
/// waits, or the count is full.
pub proof fn law_reader_refusal_has_a_reason(s: u64)
    requires
        !admits_reader(s),
    ensures
        writer_holding(s) || waiting_writers(s) > 0 || readers(s) == READER_MASK,
{
    assert(s & READER_MASK <= READER_MASK) by (bit_vector);
}

/// A waiting writer gets in whenever no reader and no writer is inside.
pub proof fn law_writer_gets_in_when_free(s: u64)
    requires
        readers(s) == 0,
        !writer_holding(s),
        waiting_writers(s) > 0,
    ensures
        admits_writer(s),
{
}

/// Writer priority: while any writer waits, no new reader is let in.
pub proof fn law_writer_priority(s: u64)
    requires
        waiting_writers(s) > 0,
    ensures
        !admits_reader(s),
{
}

/// While a writer holds the lock nobody else gets in.
pub proof fn law_writer_excludes_all(s: u64)
    requires
        writer_holding(s),
    ensures
        !admits_reader(s),
        !admits_writer(s),
{
}

/// While readers hold the lock no writer gets in.
pub proof fn law_readers_exclude_writer(s: u64)
    requires
        readers(s) > 0,
    ensures
        !admits_writer(s),
{
}

/// A reader entering and leaving again restores the state.
pub proof fn law_read_round_trip(s: u64)
    requires
        admits_reader(s),
    ensures
        after_reader_released((s + 1) as u64) == s,
{
    assert(s >> 32u64 == 0 ==> s < WRITER_WAITING) by (bit_vector);
}

/// A writer announcing itself on a free lock, entering and leaving again
/// leaves the lock free.
pub proof fn law_write_round_trip()
    ensures
        admits_writer(after_writer_announced(0)),
        after_writer_released(after_writer_entered(after_writer_announced(0))) == 0,
        admits_reader(0),
{
    assert(WRITER_WAITING & READER_MASK == 0) by (bit_vector);
    assert(WRITER_WAITING & WRITER_HOLDING == 0) by (bit_vector);
    assert(WRITER_WAITING >> 32u64 == 1) by (bit_vector);
    assert(WRITER_HOLDING & !WRITER_HOLDING == 0) by (bit_vector);
    assert(0u64 & READER_MASK == 0) by (bit_vector);
    assert(0u64 & WRITER_HOLDING == 0) by (bit_vector);
    assert(0u64 >> 32u64 == 0) by (bit_vector);
}

/// One atomic step on the state word.
pub enum LockStep {
    /// A reader tries to enter.
    EnterRead,
    /// A waiting writer tries to take the lock.
    EnterWrite,
    /// A writer announces that it waits.
    AnnounceWriter,
    /// A reader leaves.
    LeaveRead,
    /// The writer leaves.
    LeaveWrite,
}

/// The state word after `step`; a refused entry changes nothing.
pub open spec fn apply_step(s: u64, step: LockStep) -> u64 {
    match step {
        LockStep::EnterRead => if admits_reader(s) {
            (s + 1) as u64
        } else {
            s
        },
        LockStep::EnterWrite => if admits_writer(s) {
            after_writer_entered(s)
        } else {
            s
        },
        LockStep::AnnounceWriter => after_writer_announced(s),
        LockStep::LeaveRead => after_reader_released(s),
        LockStep::LeaveWrite => after_writer_released(s),
    }
}

/// The state word after `steps`, starting from a free lock.
pub open spec fn run(steps: Seq<LockStep>) -> u64
    decreases steps.len(),
{
    if steps.len() == 0 {
        0
    } else {
        apply_step(run(steps.drop_last()), steps.last())
    }
}

/// Readers let in by `steps` that have not left yet.
pub open spec fn live_readers(steps: Seq<LockStep>) -> int
    decreases steps.len(),
{
    if steps.len() == 0 {
        0
    } else {
        let before = steps.drop_last();
        match steps.last() {
            LockStep::EnterRead => live_readers(before) + if admits_reader(run(before)) {
                1int
            } else {
                0int
            },
            LockStep::LeaveRead => live_readers(before) - 1,
            _ => live_readers(before),
        }
    }
}

/// Whether a writer let in by `steps` has not left yet.
pub open spec fn live_writer(steps: Seq<LockStep>) -> bool
    decreases steps.len(),
{
    if steps.len() == 0 {
        false
    } else {
        let before = steps.drop_last();
        match steps.last() {
            LockStep::EnterWrite => live_writer(before) || admits_writer(run(before)),
            LockStep::LeaveWrite => false,
            _ => live_writer(before),
        }
    }
}

/// Writers that announced themselves in `steps` and have not entered yet.
pub open spec fn writers_waiting(steps: Seq<LockStep>) -> int
    decreases steps.len(),
{
    if steps.len() == 0 {
        0
    } else {
        let before = steps.drop_last();
        match steps.last() {
            LockStep::AnnounceWriter => writers_waiting(before) + 1,
            LockStep::EnterWrite => writers_waiting(before) - if admits_writer(run(before)) {
                1int
            } else {
                0int
            },
            _ => writers_waiting(before),
        }
    }
}

/// A history that the lock's users can produce: a reader leaves only while
/// some reader is in, the writer only while it holds the lock, and fewer
/// writers wait than the word can count.
pub open spec fn valid_history(steps: Seq<LockStep>) -> bool
    decreases steps.len(),
{
    if steps.len() == 0 {
        true
    } else {
        let before = steps.drop_last();
        &&& valid_history(before)
        &&& (steps.last() is LeaveRead ==> live_readers(before) > 0)
        &&& (steps.last() is LeaveWrite ==> live_writer(before))
        &&& (steps.last() is AnnounceWriter ==> writers_waiting(before) < MAX_WAITING_WRITERS)
    }
}

/// In any interleaving of atomic steps from a free lock that the lock's
/// users can produce, the word counts exactly the readers inside and the
/// writers waiting, its holding bit is set exactly while a writer is
/// inside, and readers and a writer are never inside together.
pub proof fn law_interleavings_keep_exclusion(steps: Seq<LockStep>)
    requires
        valid_history(steps),
    ensures
        readers(run(steps)) == live_readers(steps),
        writer_holding(run(steps)) == live_writer(steps),
        waiting_writers(run(steps)) == writers_waiting(steps),
        exclusive(run(steps)),
    decreases steps.len(),
{
    if steps.len() == 0 {
        assert(0u64 & READER_MASK == 0) by (bit_vector);
        assert(0u64 & WRITER_HOLDING == 0) by (bit_vector);
        assert(0u64 >> 32u64 == 0) by (bit_vector);
    } else {
        let before = steps.drop_last();
        law_interleavings_keep_exclusion(before);
        let s = run(before);
        match steps.last() {
            LockStep::EnterRead => {
                if admits_reader(s) {
                    law_reader_entry(s);
                }
            },
            LockStep::EnterWrite => {
                if admits_writer(s) {
                    law_writer_entry(s);
                }
            },
            LockStep::AnnounceWriter => {
                law_writer_announce(s);
            },
            LockStep::LeaveRead => {
                law_reader_exit(s);
            },
            LockStep::LeaveWrite => {
                law_writer_exit(s);
            },
        }
    }
}

/// Writer priority for every waiting writer: once a writer has announced
/// itself, no reader is let in by any later steps until a writer has
/// entered; the waiting count drops only when a writer enters.
pub proof fn law_waiting_writer_keeps_readers_out(steps: Seq<LockStep>, more: Seq<LockStep>)
    requires
        valid_history(steps + more),
        writers_waiting(steps) > 0,
        forall|i: int| 0 <= i < more.len() ==> !(more[i] is EnterWrite),
    ensures
        writers_waiting(steps + more) >= writers_waiting(steps),
        !admits_reader(run(steps + more)),
        live_readers(steps + more) <= live_readers(steps),
    decreases more.len(),
{
    if more.len() == 0 {
        assert(steps + more =~= steps);
        law_interleavings_keep_exclusion(steps);
    } else {
        let prev = more.drop_last();
        assert((steps + more).drop_last() =~= steps + prev);
        assert((steps + more).last() == more.last());
        assert(valid_history(steps + prev));
        law_waiting_writer_keeps_readers_out(steps, prev);
        law_interleavings_keep_exclusion(steps + more);
    }
}

/// A waiting writer is not starved by readers: while only readers come and
/// go, the reader count never grows, no writer mark changes, and once the
/// last reader has left the waiting writer is let in (unless a writer
/// already held the lock).
pub proof fn law_waiting_writer_not_starved(steps: Seq<LockStep>, more: Seq<LockStep>)
    requires
        valid_history(steps + more),
        writers_waiting(steps) > 0,
        forall|i: int| 0 <= i < more.len() ==> more[i] is EnterRead || more[i] is LeaveRead,
    ensures
        live_readers(steps + more) <= live_readers(steps),
        writers_waiting(steps + more) == writers_waiting(steps),
        live_writer(steps + more) == live_writer(steps),
        live_readers(steps + more) == 0 && !live_writer(steps) ==> admits_writer(
            run(steps + more),
        ),
    decreases more.len(),
{
    if more.len() == 0 {
        assert(steps + more =~= steps);
    } else {
        let prev = more.drop_last();
        assert((steps + more).drop_last() =~= steps + prev);
        assert((steps + more).last() == more.last());
        assert(valid_history(steps + prev));
        law_waiting_writer_not_starved(steps, prev);
        law_interleavings_keep_exclusion(steps + prev);
    }
    law_interleavings_keep_exclusion(steps + more);
}

/// Readers arriving at a free lock all get in together, up to the count's
/// limit: after `n` reader arrivals and nothing else, `n` readers are inside.
pub proof fn law_arriving_readers_all_enter(steps: Seq<LockStep>)
    requires
        forall|i: int| 0 <= i < steps.len() ==> #[trigger] steps[i] is EnterRead,
        steps.len() <= READER_MASK,
    ensures
        valid_history(steps),
        live_readers(steps) == steps.len(),
        readers(run(steps)) == steps.len(),
        writers_waiting(steps) == 0,
        !live_writer(steps),
    decreases steps.len(),
{
    if steps.len() == 0 {
        law_interleavings_keep_exclusion(steps);
    } else {
        let before = steps.drop_last();
        assert forall|i: int| 0 <= i < before.len() implies #[trigger] before[i] is EnterRead by {
            assert(before[i] == steps[i]);
        }
        law_arriving_readers_all_enter(before);
        law_interleavings_keep_exclusion(before);
        assert(steps.last() is EnterRead);
        law_readers_share(run(before));
        law_interleavings_keep_exclusion(steps);
    }
}

} // verus!
