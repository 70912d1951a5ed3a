//! The boundary ledger: which buffers in guest memory the host holds.
//!
//! A buffer belongs to one party at a time. The guest creates it, hands it
//! over when an export returns its address, and gets it back when the host
//! asks for its release. The ledger keeps a handle per buffer that is handed
//! over (where it lies, how long it is, who owns it, what was allocated) so
//! that a release can be checked against it and the memory can be given back
//! as what it was allocated as.

use vstd::prelude::*;

verus! {

/// The party that owns a buffer.
#[derive(Debug, Clone, Copy, PartialEq, Eq, Structural)]
pub enum Owner {
    Guest,
    Host,
}

/// What a buffer was allocated as.
#[derive(Debug, Clone, Copy, PartialEq, Eq, Structural)]
pub enum Shape {
    /// A vector of bytes.
    Bytes,
    /// A string.
    Text,
}

/// A buffer in guest memory: its address, its length, its owner and its
/// shape.
#[derive(Debug, Clone, Copy, PartialEq, Eq, Structural)]
pub struct BufferHandle {
    pub address: usize,
    pub length: usize,
    pub owner: Owner,
    pub shape: Shape,
}

impl BufferHandle {
    /// Whether this is a buffer of at least one byte that ends within the
    /// address space.
    pub open spec fn in_memory(self) -> bool {
        self.length >= 1 && self.address + self.length <= usize::MAX
    }

    /// Whether this buffer and `other` share no byte.
    pub open spec fn apart_from(self, other: BufferHandle) -> bool {
        self.address + self.length <= other.address || other.address + other.length
            <= self.address
    }
}

/// Whether the region of `length` bytes at `address` shares no byte with any
/// buffer of `handles`.
pub open spec fn region_free(handles: Seq<BufferHandle>, address: usize, length: usize) -> bool {
    forall|i: int|
        0 <= i < handles.len() ==> (address + length <= (#[trigger] handles[i]).address
            || handles[i].address + handles[i].length <= address)
}

/// Whether `handles` holds a buffer at `address` of `length` bytes that
/// `owner` owns.
pub open spec fn holds(
    handles: Seq<BufferHandle>,
    address: usize,
    length: usize,
    owner: Owner,
) -> bool {
    exists|i: int|
        0 <= i < handles.len() && (#[trigger] handles[i]).address == address
            && handles[i].length == length && handles[i].owner == owner
}

/// Whether every buffer of `handles` lies in memory and no two of them
/// share a byte.
pub open spec fn ledger_wf(handles: Seq<BufferHandle>) -> bool {
    &&& forall|i: int| 0 <= i < handles.len() ==> (#[trigger] handles[i]).in_memory()
    &&& forall|i: int, j: int|
        0 <= i < j < handles.len() ==> (#[trigger] handles[i]).apart_from(#[trigger] handles[j])
}

/// The step of handing a new buffer to the host: the ledger gains the
/// buffer, owned by the host.
pub open spec fn lend_step(
    before: Seq<BufferHandle>,
    after: Seq<BufferHandle>,
    address: usize,
    length: usize,
    shape: Shape,
) -> bool {
    &&& length >= 1
    &&& address + length <= usize::MAX
    &&& region_free(before, address, length)
    &&& after == before.push(BufferHandle { address, length, owner: Owner::Host, shape })
}

/// The step of taking a buffer back from the host: the ledger loses one
/// buffer, which the host owned at `(address, length)` and which had the
/// given shape.
pub open spec fn release_step(
    before: Seq<BufferHandle>,
    after: Seq<BufferHandle>,
    address: usize,
    length: usize,
    shape: Shape,
) -> bool {
    exists|i: int|
        0 <= i < before.len() && after == before.remove(i) && (#[trigger] before[i]) == (
        BufferHandle { address, length, owner: Owner::Host, shape })
}

/// Produce, then deallocate: a buffer that was handed over can be released,
/// and once it is released it cannot be released again. The release gives
/// back the shape that the buffer was handed over with, and leaves the ledger
/// as it was before the buffer was handed over.
pub proof fn law_released_exactly_once(
    start: Seq<BufferHandle>,
    lent: Seq<BufferHandle>,
    released: Seq<BufferHandle>,
    address: usize,
    length: usize,
    shape: Shape,
    back: Shape,
)
    requires
        ledger_wf(start),
        lend_step(start, lent, address, length, shape),
        release_step(lent, released, address, length, back),
    ensures
        ledger_wf(lent),
        holds(lent, address, length, Owner::Host),
        back == shape,
        released == start,
        !holds(released, address, length, Owner::Host),
{
    let handle = BufferHandle { address, length, owner: Owner::Host, shape };
    let last = start.len() as int;
    assert(lent[last] == handle);
    assert forall|i: int, j: int| 0 <= i < j < lent.len() implies (#[trigger] lent[i]).apart_from(
        #[trigger] lent[j],
    ) by {
        if j < last {
            assert(start[i].apart_from(start[j]));
        } else {
            assert(lent[i] == start[i]);
        }
    }
    assert forall|i: int| 0 <= i < lent.len() implies (#[trigger] lent[i]).in_memory() by {
        if i < last {
            assert(start[i].in_memory());
        }
    }
    let at = choose|i: int|
        0 <= i < lent.len() && released == lent.remove(i) && (#[trigger] lent[i]) == (
        BufferHandle { address, length, owner: Owner::Host, shape: back });
    if at < last {
        assert(lent[at].apart_from(lent[last]));
    }
    assert(at == last);
    assert(released =~= start);
    if holds(start, address, length, Owner::Host) {
        let i = choose|i: int|
            0 <= i < start.len() && (#[trigger] start[i]).address == address && start[i].length
                == length && start[i].owner == Owner::Host;
        assert(address + length <= start[i].address || start[i].address + start[i].length
            <= address);
        assert(start[i].in_memory());
    }
}

/// Two buffers that are out at the same time are independent regions: they
/// share no byte, and releasing the one leaves the other with the host.
pub proof fn law_buffers_independent(
    start: Seq<BufferHandle>,
    one: Seq<BufferHandle>,
    two: Seq<BufferHandle>,
    after: Seq<BufferHandle>,
    first: BufferHandle,
    second: BufferHandle,
    back: Shape,
)
    requires
        ledger_wf(start),
        lend_step(start, one, first.address, first.length, first.shape),
        lend_step(one, two, second.address, second.length, second.shape),
        release_step(two, after, first.address, first.length, back),
    ensures
        first.address + first.length <= second.address || second.address + second.length
            <= first.address,
        first.address != second.address,
        holds(after, second.address, second.length, Owner::Host),
{
    let a = BufferHandle {
        address: first.address,
        length: first.length,
        owner: Owner::Host,
        shape: first.shape,
    };
    let b = BufferHandle {
        address: second.address,
        length: second.length,
        owner: Owner::Host,
        shape: second.shape,
    };
    let n = start.len() as int;
    assert(one[n] == a);
    assert(two[n] == a);
    assert(two[n + 1] == b);
    let at = choose|i: int|
        0 <= i < two.len() && after == two.remove(i) && (#[trigger] two[i]) == (BufferHandle {
            address: first.address,
            length: first.length,
            owner: Owner::Host,
            shape: back,
        });
    assert(at != n + 1);
    assert(after[n] == two[n + 1]);
}

/// The ledger of the buffers that are out of the guest allocator's hands.
pub struct Boundary {
    handles: Vec<BufferHandle>,
    faulted: bool,
}

impl Boundary {
    /// The buffers on the ledger.
    pub closed spec fn handles(&self) -> Seq<BufferHandle> {
        self.handles@
    }

    /// Whether the guest has met a fatal fault.
    pub closed spec fn faulted(&self) -> bool {
        self.faulted
    }

    /// The ledger's invariant: every buffer lies in memory, and no two
    /// buffers share a byte.
    pub open spec fn wf(&self) -> bool {
        ledger_wf(self.handles())
    }

    /// Whether `(address, length)` is a buffer that the host owns: the pairs
    /// that the host may ask to release. After a fault there is none.
    pub open spec fn host_owns(&self, address: usize, length: usize) -> bool {
        !self.faulted() && holds(self.handles(), address, length, Owner::Host)
    }

    /// Whether `(address, length)` is a buffer that the guest has entered and
    /// not yet handed over.
    pub open spec fn guest_owns(&self, address: usize, length: usize) -> bool {
        !self.faulted() && holds(self.handles(), address, length, Owner::Guest)
    }

    /// Whether a buffer of `length` bytes at `address` can be entered: the
    /// guest has not faulted, the buffer lies in memory and shares no byte
    /// with a buffer on the ledger.
    pub open spec fn admits(&self, address: usize, length: usize) -> bool {
        &&& !self.faulted()
        &&& length >= 1
        &&& address + length <= usize::MAX
        &&& region_free(self.handles(), address, length)
    }

    /// An empty ledger.
    pub fn new() -> (b: Boundary)
        ensures
            b.wf(),
            !b.faulted(),
            b.handles() == Seq::<BufferHandle>::empty(),
    {
        Boundary { handles: Vec::new(), faulted: false }
    }

    /// Whether the ledger meets its invariant. Every ledger that was made
    /// by [`Boundary::new`] and changed by the methods here does; a caller
    /// that cannot show so asks.
    pub fn is_sound(&self) -> (r: bool)
        ensures
            r == self.wf(),
    {
        let mut j: usize = 0;
        while j < self.handles.len()
            invariant
                j <= self.handles.len(),
                forall|k: int| 0 <= k < j ==> (#[trigger] self.handles@[k]).in_memory(),
                forall|x: int, y: int|
                    0 <= x < y < j ==> (#[trigger] self.handles@[x]).apart_from(
                        #[trigger] self.handles@[y],
                    ),
            decreases self.handles.len() - j,
        {
            let h = self.handles[j];
            if h.length < 1 || h.length > usize::MAX - h.address {
                assert(!self.handles()[j as int].in_memory());
                return false;
            }
            let mut i: usize = 0;
            while i < j
                invariant
                    i <= j < self.handles.len(),
                    h == self.handles@[j as int],
                    h.in_memory(),
                    forall|k: int| 0 <= k < j ==> (#[trigger] self.handles@[k]).in_memory(),
                    forall|x: int| 0 <= x < i ==> (#[trigger] self.handles@[x]).apart_from(h),
                decreases j - i,
            {
                let g = self.handles[i];
                if !(g.address + g.length <= h.address || h.address + h.length <= g.address) {
                    assert(!self.handles()[i as int].apart_from(self.handles()[j as int]));
                    return false;
                }
                i += 1;
            }
            j += 1;
        }
        true
    }

    /// Whether the guest has met a fatal fault.
    pub fn has_faulted(&self) -> (r: bool)
        ensures
            r == self.faulted(),
    {
        self.faulted
    }

    /// How many buffers are on the ledger.
    pub fn outstanding(&self) -> (n: usize)
        ensures
            n == self.handles().len(),
    {
        self.handles.len()
    }

    /// Whether a buffer of `length` bytes at `address` can be entered.
    pub fn can_admit(&self, address: usize, length: usize) -> (r: bool)
        ensures
            r == self.admits(address, length),
    {
        if self.faulted || length < 1 || length > usize::MAX - address {
            return false;
        }
        let mut i: usize = 0;
        while i < self.handles.len()
            invariant
                i <= self.handles.len(),
                address + length <= usize::MAX,
                forall|k: int|
                    0 <= k < i ==> (address + length <= (#[trigger] self.handles@[k]).address
                        || self.handles@[k].address + self.handles@[k].length <= address),
            decreases self.handles.len() - i,
        {
            let h = self.handles[i];
            let after = h.address >= address && h.address - address >= length;
            let before = address >= h.address && address - h.address >= h.length;
            if !after && !before {
                assert(!(address + length <= self.handles()[i as int].address
                    || self.handles()[i as int].address + self.handles()[i as int].length
                    <= address));
                return false;
            }
            i += 1;
        }
        true
    }

    /// Where on the ledger the buffer `(address, length)` of `owner` stands.
    fn find(&self, address: usize, length: usize, owner: Owner) -> (r: Option<usize>)
        ensures
            match r {
                Some(i) => i < self.handles().len() && self.handles()[i as int].address == address
                    && self.handles()[i as int].length == length && self.handles()[i as int].owner
                    == owner,
                None => !holds(self.handles(), address, length, owner),
            },
    {
        let mut i: usize = 0;
        while i < self.handles.len()
            invariant
                i <= self.handles.len(),
                forall|k: int|
                    0 <= k < i ==> !((#[trigger] self.handles@[k]).address == address
                        && self.handles@[k].length == length && self.handles@[k].owner == owner),
            decreases self.handles.len() - i,
        {
            let h = self.handles[i];
            if h.address == address && h.length == length && h.owner == owner {
                return Some(i);
            }
            i += 1;
        }
        None
    }

    /// Whether the host owns the buffer `(address, length)`.
    pub fn owns(&self, address: usize, length: usize) -> (r: bool)
        ensures
            r == self.host_owns(address, length),
    {
        if self.faulted {
            return false;
        }
        self.find(address, length, Owner::Host).is_some()
    }

    /// Whether the guest owns the buffer `(address, length)`.
    pub fn keeps(&self, address: usize, length: usize) -> (r: bool)
        ensures
            r == self.guest_owns(address, length),
    {
        if self.faulted {
            return false;
        }
        self.find(address, length, Owner::Guest).is_some()
    }

    /// Enters a buffer that the guest has allocated and still fills. The
    /// guest owns it until it is handed over; the host cannot ask for its
    /// release.
    pub fn create(&mut self, address: usize, length: usize, shape: Shape)
        requires
            old(self).wf(),
            old(self).admits(address, length),
        ensures
            final(self).wf(),
            !final(self).faulted(),
            final(self).handles() == old(self).handles().push(
                BufferHandle { address, length, owner: Owner::Guest, shape },
            ),
            final(self).guest_owns(address, length),
            forall|a: usize, l: usize|
                #[trigger] final(self).host_owns(a, l) == old(self).host_owns(a, l),
    {
        let handle = BufferHandle { address, length, owner: Owner::Guest, shape };
        let ghost before = self.handles@;
        self.handles.push(handle);
        proof {
            let after = self.handles@;
            assert(after[before.len() as int] == handle);
            assert forall|a: usize, l: usize| holds(after, a, l, Owner::Host) == holds(
                before,
                a,
                l,
                Owner::Host,
            ) by {
                if holds(before, a, l, Owner::Host) {
                    let i = choose|i: int|
                        0 <= i < before.len() && (#[trigger] before[i]).address == a
                            && before[i].length == l && before[i].owner == Owner::Host;
                    assert(after[i] == before[i]);
                }
                if holds(after, a, l, Owner::Host) {
                    let i = choose|i: int|
                        0 <= i < after.len() && (#[trigger] after[i]).address == a
                            && after[i].length == l && after[i].owner == Owner::Host;
                    assert(i < before.len());
                    assert(before[i] == after[i]);
                }
            }
        }
    }

    /// Hands a buffer of the guest over to the host: the one transfer in
    /// this direction. From now on the host owns the buffer and the guest
    /// does not; every other buffer stays as it was.
    pub fn hand_over(&mut self, address: usize, length: usize)
        requires
            old(self).wf(),
            old(self).guest_owns(address, length),
        ensures
            final(self).wf(),
            !final(self).faulted(),
            final(self).host_owns(address, length),
            !final(self).guest_owns(address, length),
            final(self).handles().len() == old(self).handles().len(),
            forall|a: usize, l: usize|
                a != address ==> (#[trigger] final(self).host_owns(a, l) == old(self).host_owns(
                    a,
                    l,
                )),
    {
        let found = self.find(address, length, Owner::Guest);
        let at: usize = match found {
            Some(i) => i,
            None => {
                proof {
                    assert(false);
                }
                0
            },
        };
        let ghost before = self.handles@;
        let held = self.handles[at];
        let handle = BufferHandle {
            address: held.address,
            length: held.length,
            owner: Owner::Host,
            shape: held.shape,
        };
        self.handles.set(at, handle);
        proof {
            let after = self.handles@;
            assert(after == before.update(at as int, handle));
            assert(after[at as int] == handle);
            assert forall|k: int| 0 <= k < after.len() implies (#[trigger] after[k]).in_memory() by {
                if k != at {
                    assert(after[k] == before[k]);
                } else {
                    assert(before[k].in_memory());
                }
            }
            assert forall|i: int, j: int| 0 <= i < j < after.len() implies (#[trigger] after[i]).apart_from(
                #[trigger] after[j],
            ) by {
                assert(before[i].apart_from(before[j]));
            }
            assert forall|a: usize, l: usize| a != address implies (holds(
                after,
                a,
                l,
                Owner::Host,
            ) == holds(before, a, l, Owner::Host)) by {
                if holds(after, a, l, Owner::Host) {
                    let i = choose|i: int|
                        0 <= i < after.len() && (#[trigger] after[i]).address == a
                            && after[i].length == l && after[i].owner == Owner::Host;
                    assert(i != at);
                    assert(before[i] == after[i]);
                }
                if holds(before, a, l, Owner::Host) {
                    let i = choose|i: int|
                        0 <= i < before.len() && (#[trigger] before[i]).address == a
                            && before[i].length == l && before[i].owner == Owner::Host;
                    assert(i != at);
                    assert(after[i] == before[i]);
                }
            }
            assert(!holds(after, address, length, Owner::Guest)) by {
                if holds(after, address, length, Owner::Guest) {
                    let i = choose|i: int|
                        0 <= i < after.len() && (#[trigger] after[i]).address == address
                            && after[i].length == length && after[i].owner == Owner::Guest;
                    assert(i != at);
                    if i < at {
                        assert(before[i].apart_from(before[at as int]));
                    } else {
                        assert(before[at as int].apart_from(before[i]));
                    }
                }
            }
        }
    }

    /// Enters a buffer that the guest has allocated and filled, and hands it
    /// over to the host.
    ///
    /// From now on the host owns `(address, length)`, and may ask for its
    /// release. Every other buffer stays as it was.
    pub fn lend(&mut self, address: usize, length: usize, shape: Shape)
        requires
            old(self).wf(),
            old(self).admits(address, length),
        ensures
            final(self).wf(),
            !final(self).faulted(),
            lend_step(old(self).handles(), final(self).handles(), address, length, shape),
            final(self).host_owns(address, length),
            forall|a: usize, l: usize|
                old(self).host_owns(a, l) ==> #[trigger] final(self).host_owns(a, l),
            forall|a: usize, l: usize|
                a != address && #[trigger] final(self).host_owns(a, l) ==> old(self).host_owns(
                    a,
                    l,
                ),
    {
        let handle = BufferHandle { address, length, owner: Owner::Host, shape };
        let ghost before = self.handles@;
        self.handles.push(handle);
        proof {
            let after = self.handles@;
            assert(after[before.len() as int] == handle);
            assert forall|a: usize, l: usize| holds(before, a, l, Owner::Host) implies holds(
                after,
                a,
                l,
                Owner::Host,
            ) by {
                let i = choose|i: int|
                    0 <= i < before.len() && (#[trigger] before[i]).address == a && before[i].length
                        == l && before[i].owner == Owner::Host;
                assert(after[i] == before[i]);
            }
            assert forall|a: usize, l: usize|
                a != address && holds(after, a, l, Owner::Host) implies holds(
                before,
                a,
                l,
                Owner::Host,
            ) by {
                let i = choose|i: int|
                    0 <= i < after.len() && (#[trigger] after[i]).address == a && after[i].length
                        == l && after[i].owner == Owner::Host;
                assert(i < before.len());
                assert(before[i] == after[i]);
            }
        }
    }

    /// Takes back the buffer `(address, length)` from the host, to be given
    /// to the allocator as the shape that is returned.
    ///
    /// The host must own the buffer: a pair that was never handed over, or
    /// that was released before, is not accepted. After the call the pair is
    /// no longer owned by the host, so it cannot be released a second time;
    /// every other buffer stays as it was.
    pub fn release(&mut self, address: usize, length: usize) -> (shape: Shape)
        requires
            old(self).wf(),
            old(self).host_owns(address, length),
        ensures
            final(self).wf(),
            !final(self).faulted(),
            !final(self).host_owns(address, length),
            final(self).handles().len() + 1 == old(self).handles().len(),
            final(self).admits(address, length),
            release_step(old(self).handles(), final(self).handles(), address, length, shape),
            forall|a: usize, l: usize|
                a != address ==> (#[trigger] final(self).host_owns(a, l) == old(self).host_owns(
                    a,
                    l,
                )),
    {
        let found = self.find(address, length, Owner::Host);
        let at: usize = match found {
            Some(i) => i,
            None => {
                proof {
                    assert(false);
                }
                0
            },
        };
        let ghost before = self.handles@;
        let handle = self.handles.remove(at);
        proof {
            let after = self.handles@;
            assert(after == before.remove(at as int));
            assert forall|k: int| 0 <= k < after.len() implies (#[trigger] after[k]).in_memory()
                && after[k].apart_from(handle) by {
                if k < at {
                    assert(after[k] == before[k]);
                    assert(before[k].apart_from(before[at as int]));
                } else {
                    assert(after[k] == before[k + 1]);
                    assert(before[at as int].apart_from(before[k + 1]));
                }
            }
            assert forall|i: int, j: int| 0 <= i < j < after.len() implies (#[trigger] after[i]).apart_from(
                #[trigger] after[j],
            ) by {
                let bi = if i < at { i } else { i + 1 };
                let bj = if j < at { j } else { j + 1 };
                assert(after[i] == before[bi]);
                assert(after[j] == before[bj]);
                assert(before[bi].apart_from(before[bj]));
            }
            assert forall|a: usize, l: usize| a != address implies (holds(
                after,
                a,
                l,
                Owner::Host,
            ) == holds(before, a, l, Owner::Host)) by {
                if holds(after, a, l, Owner::Host) {
                    let i = choose|i: int|
                        0 <= i < after.len() && (#[trigger] after[i]).address == a
                            && after[i].length == l && after[i].owner == Owner::Host;
                    let bi = if i < at { i } else { i + 1 };
                    assert(before[bi] == after[i]);
                }
                if holds(before, a, l, Owner::Host) {
                    let i = choose|i: int|
                        0 <= i < before.len() && (#[trigger] before[i]).address == a
                            && before[i].length == l && before[i].owner == Owner::Host;
                    assert(i != at);
                    let ai = if i < at { i } else { i - 1 };
                    assert(after[ai] == before[i]);
                }
            }
            assert(!holds(after, address, length, Owner::Host)) by {
                if holds(after, address, length, Owner::Host) {
                    let i = choose|i: int|
                        0 <= i < after.len() && (#[trigger] after[i]).address == address
                            && after[i].length == length && after[i].owner == Owner::Host;
                    assert(after[i].apart_from(handle));
                }
            }
            assert(before[at as int] == handle);
        }
        handle.shape
    }

    /// Strikes from the ledger every buffer that shares a byte with the
    /// region of `length` bytes at `address`. This is for a host that gives
    /// buffers back to the allocator without asking the ledger: when the
    /// allocator hands out the region again, whatever the ledger still holds
    /// there is gone. Every buffer apart from the region stays as it was.
    pub fn evict(&mut self, address: usize, length: usize)
        requires
            old(self).wf(),
            address + length <= usize::MAX,
        ensures
            final(self).wf(),
            final(self).faulted() == old(self).faulted(),
            region_free(final(self).handles(), address, length),
            forall|h: BufferHandle|
                #[trigger] final(self).handles().contains(h) <==> old(self).handles().contains(h)
                    && (address + length <= h.address || h.address + h.length <= address),
    {
        let ghost before = self.handles@;
        let mut kept: Vec<BufferHandle> = Vec::new();
        let mut i: usize = 0;
        while i < self.handles.len()
            invariant
                i <= self.handles.len(),
                self.handles@ == before,
                ledger_wf(before),
                address + length <= usize::MAX,
                ledger_wf(kept@),
                region_free(kept@, address, length),
                forall|k: int| 0 <= k < kept@.len() ==> before.subrange(0, i as int).contains(
                    #[trigger] kept@[k],
                ),
                forall|k: int|
                    0 <= k < i && (address + length <= (#[trigger] before[k]).address
                        || before[k].address + before[k].length <= address) ==> kept@.contains(
                        before[k],
                    ),
            decreases self.handles.len() - i,
        {
            let h = self.handles[i];
            let ghost kept_before = kept@;
            assert(h.in_memory());
            let apart = h.address >= address && h.address - address >= length || address
                >= h.address && address - h.address >= h.length;
            if apart {
                kept.push(h);
                proof {
                    assert(kept@[kept_before.len() as int] == h);
                    assert forall|x: int, y: int| 0 <= x < y < kept@.len() implies (
                    #[trigger] kept@[x]).apart_from(#[trigger] kept@[y]) by {
                        if y == kept_before.len() {
                            assert(kept@[x] == kept_before[x]);
                            let j = choose|j: int|
                                0 <= j < i && before.subrange(0, i as int)[j] == kept_before[x];
                            assert(before[j].apart_from(before[i as int]));
                        } else {
                            assert(kept_before[x].apart_from(kept_before[y]));
                        }
                    }
                    assert forall|k: int| 0 <= k < kept@.len() implies (#[trigger] kept@[k]).in_memory() by {
                        if k < kept_before.len() {
                            assert(kept_before[k].in_memory());
                        }
                    }
                }
            }
            proof {
                assert forall|k: int| 0 <= k < kept@.len() implies before.subrange(
                    0,
                    i + 1,
                ).contains(#[trigger] kept@[k]) by {
                    if k < kept_before.len() {
                        let j = choose|j: int|
                            0 <= j < i && before.subrange(0, i as int)[j] == kept_before[k];
                        assert(before.subrange(0, i + 1)[j] == kept@[k]);
                    } else {
                        assert(before.subrange(0, i + 1)[i as int] == kept@[k]);
                    }
                }
                assert forall|k: int|
                    0 <= k < i + 1 && (address + length <= (#[trigger] before[k]).address
                        || before[k].address + before[k].length <= address) implies kept@.contains(
                    before[k],
                ) by {
                    if k < i {
                        let j = choose|j: int| 0 <= j < kept_before.len() && kept_before[j] == before[k];
                        assert(kept@[j] == before[k]);
                    } else {
                        assert(kept@[kept_before.len() as int] == before[k]);
                    }
                }
            }
            i += 1;
        }
        self.handles = kept;
        proof {
            assert(before.subrange(0, before.len() as int) =~= before);
            assert forall|h: BufferHandle|
                #[trigger] self.handles@.contains(h) <==> before.contains(h) && (address + length
                    <= h.address || h.address + h.length <= address) by {
                if self.handles@.contains(h) {
                    let k = choose|k: int| 0 <= k < self.handles@.len() && self.handles@[k] == h;
                    assert(before.contains(self.handles@[k]));
                }
                if before.contains(h) && (address + length <= h.address || h.address + h.length
                    <= address) {
                    let k = choose|k: int| 0 <= k < before.len() && before[k] == h;
                    assert(self.handles@.contains(before[k]));
                }
            }
        }
    }

    /// Records a fatal fault. From now on the host owns no buffer as far as
    /// the ledger goes: no pair is accepted for release, and nothing can be
    /// entered.
    pub fn fault(&mut self)
        ensures
            final(self).faulted(),
            final(self).handles() == old(self).handles(),
            forall|a: usize, l: usize| !#[trigger] final(self).host_owns(a, l),
            forall|a: usize, l: usize| !#[trigger] final(self).admits(a, l),
    {
        self.faulted = true;
    }
}

} // verus!
