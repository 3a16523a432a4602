//! File descriptor table: maps small integers to open file objects and
//! reuses the smallest closed descriptor first.

use std::sync::Arc;
use vstd::prelude::*;

verus! {

/// File abstraction: regular files, pipes and sockets all implement this.
pub trait File: Send + Sync {
    fn read(&self, buf: &mut [u8]) -> isize;

    fn write(&self, buf: &[u8]) -> isize;
}

/// Table of descriptors; the index is the descriptor number, `None` marks a
/// closed or never-used slot.
pub struct FdTable {
    fdtable: Vec<Option<Arc<dyn File>>>,
}

impl View for FdTable {
    type V = Seq<Option<Arc<dyn File>>>;

    closed spec fn view(&self) -> Self::V {
        self.fdtable@
    }
}

impl FdTable {
    /// Create an empty descriptor table.
    pub fn new() -> (t: Self)
        ensures
            t@ == Seq::<Option<Arc<dyn File>>>::empty(),
    {
        FdTable { fdtable: Vec::new() }
    }

    /// Allocate a descriptor for `file`: the smallest closed one is reused;
    /// when every slot is open the table grows by one.
    pub fn alloc_fd(&mut self, file: Arc<dyn File>) -> (fd: usize)
        requires
            old(self)@.len() < usize::MAX,
        ensures
            fd == first_free(old(self)@),
            // The slot is bound first, so that `file` is not itself the
            // argument of a call (a coercion site for trait objects).
            ({
                let slot = Some(file);
                final(self)@ == after_alloc(old(self)@, slot)
            }),
    {
        let len = self.fdtable.len();
        let mut i: usize = 0;
        while i < len
            invariant
                len == self.fdtable@.len(),
                self.fdtable@ == old(self)@,
                0 <= i <= len,
                forall|j: int| 0 <= j < i ==> self.fdtable@[j] is Some,
            decreases len - i,
        {
            if self.fdtable[i].is_none() {
                proof {
                    lemma_first_free_at(self.fdtable@, i as int);
                }
                let slot = Some(file);
                self.fdtable.set(i, slot);
                return i;
            }
            i = i + 1;
        }
        proof {
            lemma_first_free_at(self.fdtable@, len as int);
        }
        let slot = Some(file);
        self.fdtable.push(slot);
        self.fdtable.len() - 1
    }

    /// The file open under `fd`; `None` when the descriptor is out of range
    /// or closed.
    pub fn get(&self, fd: usize) -> (r: Option<Arc<dyn File>>)
        ensures
            r == lookup(self@, fd as int),
    {
        if fd < self.fdtable.len() {
            clone_slot(&self.fdtable[fd])
        } else {
            None
        }
    }

    /// Close `fd`. Returns `true` on success, `false` when the descriptor
    /// does not exist or is already closed.
    pub fn close(&mut self, fd: usize) -> (ok: bool)
        ensures
            ok == closable(old(self)@, fd as int),
            final(self)@ == after_close(old(self)@, fd as int),
    {
        if fd < self.fdtable.len() && self.fdtable[fd].is_some() {
            self.fdtable.set(fd, None);
            true
        } else {
            false
        }
    }

    /// Number of descriptors currently open.
    pub fn count(&self) -> (n: usize)
        ensures
            n == open_count(self@),
    {
        let len = self.fdtable.len();
        let mut n: usize = 0;
        let mut i: usize = 0;
        while i < len
            invariant
                len == self.fdtable@.len(),
                0 <= i <= len,
                n == open_count(self.fdtable@.take(i as int)),
            decreases len - i,
        {
            proof {
                lemma_open_count_step(self.fdtable@, i as int);
                lemma_open_count_bound(self.fdtable@.take(i as int));
            }
            if self.fdtable[i].is_some() {
                n = n + 1;
            }
            i = i + 1;
        }
        assert(self.fdtable@.take(len as int) =~= self.fdtable@);
        n
    }
}

impl Default for FdTable {
    fn default() -> (t: Self)
        ensures
            t@ == Seq::<Option<Arc<dyn File>>>::empty(),
    {
        Self::new()
    }
}

/// Another handle to what a slot holds: calls `Option::clone`, which clones
/// the `Arc` inside, and `Arc::clone` makes a new pointer to the same
/// allocation; so the result equals the slot.
#[verifier::external_body]
fn clone_slot(slot: &Option<Arc<dyn File>>) -> (r: Option<Arc<dyn File>>)
    ensures
        r == *slot,
{
    slot.clone()
}

/// The smallest descriptor whose slot is empty; the table's length when
/// every slot is in use.
pub open spec fn first_free<A>(s: Seq<Option<A>>) -> int
    decreases s.len(),
{
    if s.len() == 0 {
        0
    } else {
        let f = first_free(s.drop_last());
        if f < s.len() - 1 {
            f
        } else if s.last() is None {
            s.len() - 1
        } else {
            s.len() as int
        }
    }
}

/// Number of slots that hold an open file.
pub open spec fn open_count<A>(s: Seq<Option<A>>) -> nat
    decreases s.len(),
{
    if s.len() == 0 {
        0
    } else {
        open_count(s.drop_last()) + if s.last() is Some { 1nat } else { 0nat }
    }
}

/// What `get` gives back for a descriptor.
pub open spec fn lookup<A>(s: Seq<Option<A>>, fd: int) -> Option<A> {
    if 0 <= fd < s.len() {
        s[fd]
    } else {
        None
    }
}

/// The table after a file has been placed at the first free descriptor.
pub open spec fn after_alloc<A>(s: Seq<Option<A>>, slot: Option<A>) -> Seq<Option<A>> {
    let fd = first_free(s);
    if fd < s.len() {
        s.update(fd, slot)
    } else {
        s.push(slot)
    }
}

/// Whether `close(fd)` succeeds: the descriptor exists and is open.
pub open spec fn closable<A>(s: Seq<Option<A>>, fd: int) -> bool {
    0 <= fd < s.len() && s[fd] is Some
}

/// The table after `close(fd)`.
pub open spec fn after_close<A>(s: Seq<Option<A>>, fd: int) -> Seq<Option<A>> {
    if closable(s, fd) {
        s.update(fd, None)
    } else {
        s
    }
}

/// Changing one slot changes the count of open slots by what left and what
/// came in.
pub proof fn lemma_open_count_update<A>(s: Seq<Option<A>>, i: int, slot: Option<A>)
    requires
        0 <= i < s.len(),
    ensures
        open_count(s.update(i, slot)) + (if s[i] is Some { 1int } else { 0int })
            == open_count(s) + (if slot is Some { 1int } else { 0int }),
    decreases s.len(),
{
    let t = s.update(i, slot);
    if i < s.len() - 1 {
        lemma_open_count_update(s.drop_last(), i, slot);
        assert(t.drop_last() =~= s.drop_last().update(i, slot));
    } else {
        assert(t.drop_last() =~= s.drop_last());
    }
}

/// `first_free` is the least empty slot, or the length when there is none.
pub proof fn lemma_first_free<A>(s: Seq<Option<A>>)
    ensures
        0 <= first_free(s) <= s.len(),
        forall|j: int| 0 <= j < first_free(s) ==> s[j] is Some,
        first_free(s) < s.len() ==> s[first_free(s)] is None,
    decreases s.len(),
{
    if s.len() > 0 {
        lemma_first_free(s.drop_last());
        assert forall|j: int| 0 <= j < first_free(s) implies s[j] is Some by {
            if j < s.len() - 1 {
                assert(s[j] == s.drop_last()[j]);
            }
        }
        if first_free(s) < s.len() - 1 {
            assert(s[first_free(s)] == s.drop_last()[first_free(s)]);
        }
    }
}

/// A position before which every slot is taken and which is itself empty
/// (or the end) is the first free descriptor.
pub proof fn lemma_first_free_at<A>(s: Seq<Option<A>>, i: int)
    requires
        0 <= i <= s.len(),
        forall|j: int| 0 <= j < i ==> s[j] is Some,
        i < s.len() ==> s[i] is None,
    ensures
        first_free(s) == i,
{
    lemma_first_free(s);
    let f = first_free(s);
    if f < i {
        assert(s[f] is Some);
    } else if f > i {
        assert(s[i] is Some);
    }
}

/// Counting the open slots of a prefix one slot longer.
proof fn lemma_open_count_step<A>(s: Seq<Option<A>>, i: int)
    requires
        0 <= i < s.len(),
    ensures
        open_count(s.take(i + 1)) == open_count(s.take(i)) + if s[i] is Some { 1nat } else { 0nat },
{
    assert(s.take(i + 1).drop_last() =~= s.take(i));
}

/// The number of open slots never exceeds the number of slots.
pub proof fn lemma_open_count_bound<A>(s: Seq<Option<A>>)
    ensures
        open_count(s) <= s.len(),
    decreases s.len(),
{
    if s.len() > 0 {
        lemma_open_count_bound(s.drop_last());
    }
}

/// A file placed by `alloc_fd` is what `get` returns for the descriptor that
/// `alloc_fd` returned.
pub proof fn law_get_after_alloc<A>(s: Seq<Option<A>>, file: A)
    ensures
        lookup(after_alloc(s, Some(file)), first_free(s)) == Some(file),
{
    lemma_first_free(s);
}

/// `alloc_fd` leaves every other descriptor as it was.
pub proof fn law_alloc_keeps_others<A>(s: Seq<Option<A>>, file: A, fd: int)
    requires
        fd != first_free(s),
    ensures
        lookup(after_alloc(s, Some(file)), fd) == lookup(s, fd),
{
    lemma_first_free(s);
}

/// Each `alloc_fd` adds one to `count`.
pub proof fn law_count_after_alloc<A>(s: Seq<Option<A>>, file: A)
    ensures
        open_count(after_alloc(s, Some(file))) == open_count(s) + 1,
{
    lemma_first_free(s);
    let fd = first_free(s);
    if fd < s.len() {
        lemma_open_count_update(s, fd, Some(file));
    } else {
        assert(s.push(Some(file)).drop_last() =~= s);
    }
}

/// A successful `close` takes one from `count`; a failed one changes nothing.
pub proof fn law_count_after_close<A>(s: Seq<Option<A>>, fd: int)
    ensures
        closable(s, fd) ==> open_count(after_close(s, fd)) + 1 == open_count(s),
        !closable(s, fd) ==> after_close(s, fd) == s,
{
    if closable(s, fd) {
        lemma_open_count_update(s, fd, None);
    }
}

/// After `close(fd)`, `get(fd)` returns `None`.
pub proof fn law_get_after_close<A>(s: Seq<Option<A>>, fd: int)
    ensures
        lookup(after_close(s, fd), fd) is None,
{
}

/// Closing an open descriptor lets the next `alloc_fd` reuse it unless a
/// smaller one is free: the next descriptor handed out is the smaller of the
/// two.
pub proof fn law_alloc_reuses_closed<A>(s: Seq<Option<A>>, fd: int)
    requires
        closable(s, fd),
    ensures
        first_free(after_close(s, fd)) == if fd < first_free(s) { fd } else { first_free(s) },
{
    lemma_first_free(s);
    let t = after_close(s, fd);
    if fd < first_free(s) {
        lemma_first_free_at(t, fd);
    } else {
        assert(first_free(s) != fd);
        lemma_first_free_at(t, first_free(s));
    }
}

/// Closing the descriptor that `alloc_fd` just returned succeeds and undoes
/// the allocation: the count, every lookup and the next descriptor handed
/// out are as before.
pub proof fn law_close_undoes_alloc<A>(s: Seq<Option<A>>, file: A)
    ensures
        closable(after_alloc(s, Some(file)), first_free(s)),
        ({
            let t = after_close(after_alloc(s, Some(file)), first_free(s));
            &&& open_count(t) == open_count(s)
            &&& forall|j: int| lookup(t, j) == lookup(s, j)
            &&& first_free(t) == first_free(s)
        }),
{
    lemma_first_free(s);
    let fd = first_free(s);
    let t = after_close(after_alloc(s, Some(file)), fd);
    if fd < s.len() {
        assert(t =~= s);
    } else {
        assert(t =~= s.push(None));
        assert(t.drop_last() =~= s);
        lemma_first_free_at(t, fd);
    }
}

/// A history of calls on a table: `alloc_fd` of a file, or `close` of a
/// descriptor.
pub enum FdCall<A> {
    Alloc(A),
    Close(int),
}

/// The table after `calls`, starting from an empty one.
pub open spec fn table_after<A>(calls: Seq<FdCall<A>>) -> Seq<Option<A>>
    decreases calls.len(),
{
    if calls.len() == 0 {
        Seq::empty()
    } else {
        let t = table_after(calls.drop_last());
        match calls.last() {
            FdCall::Alloc(f) => after_alloc(t, Some(f)),
            FdCall::Close(fd) => after_close(t, fd),
        }
    }
}

/// What the latest call touching `fd` left there: the file of the latest
/// `alloc_fd` that returned `fd`, unless a `close(fd)` that returned `true`
/// came after it; `None` when no such call was made.
pub open spec fn latest_holder<A>(calls: Seq<FdCall<A>>, fd: int) -> Option<A>
    decreases calls.len(),
{
    if calls.len() == 0 {
        None
    } else {
        let before = calls.drop_last();
        let t = table_after(before);
        match calls.last() {
            FdCall::Alloc(f) => if first_free(t) == fd {
                Some(f)
            } else {
                latest_holder(before, fd)
            },
            FdCall::Close(c) => if c == fd && closable(t, fd) {
                None
            } else {
                latest_holder(before, fd)
            },
        }
    }
}

/// After any history of `alloc_fd` and `close` calls on a new table, `get(fd)`
/// returns the file of the latest `alloc_fd` that returned `fd` if no
/// successful `close(fd)` came after it, and `None` otherwise.
pub proof fn law_get_after_history<A>(calls: Seq<FdCall<A>>, fd: int)
    ensures
        lookup(table_after(calls), fd) == latest_holder(calls, fd),
    decreases calls.len(),
{
    if calls.len() > 0 {
        let before = calls.drop_last();
        law_get_after_history(before, fd);
        let t = table_after(before);
        match calls.last() {
            FdCall::Alloc(f) => {
                if first_free(t) == fd {
                    law_get_after_alloc(t, f);
                } else {
                    law_alloc_keeps_others(t, f, fd);
                }
            },
            FdCall::Close(c) => {
                law_get_after_close(t, fd);
            },
        }
    }
}

/// A fresh table counts nothing and maps every descriptor to `None`.
pub proof fn law_empty_table<A>(fd: int)
    ensures
        open_count(Seq::<Option<A>>::empty()) == 0,
        lookup(Seq::<Option<A>>::empty(), fd) is None,
{
}

} // verus!
