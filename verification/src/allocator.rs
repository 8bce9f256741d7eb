//! The buffer allocator: regions of one linear memory, handed out and taken
//! back by explicit `(pointer, length)` pairs.
//!
//! A pointer is an address in the memory that the allocator owns. Address 0
//! is the null pointer. Every region starts at a multiple of [`ALIGNMENT`],
//! and a request is served at the lowest address at which it fits.

use vstd::prelude::*;

verus! {

/// Every region starts at a multiple of this many bytes.
pub const ALIGNMENT: usize = 8;

/// An input buffer is smaller than this many bytes.
pub const INPUT_CEILING: usize = 65536;

/// A response buffer is smaller than this many bytes.
pub const RESPONSE_CEILING: usize = 524288;

/// No memory is larger than this many bytes.
pub const MAX_CAPACITY: usize = 0x4000_0000;

/// One contiguous region of memory.
#[derive(Clone, Copy, Debug, PartialEq, Eq, Structural)]
pub struct Buffer {
    /// The address of the first byte.
    pub ptr: usize,
    /// The number of bytes.
    pub len: usize,
}

impl Buffer {
    /// The address after the last byte.
    pub open spec fn end(self) -> int {
        self.ptr + self.len
    }

    /// Whether the `len` bytes at `ptr` all lie in this region.
    pub open spec fn covers(self, ptr: int, len: int) -> bool {
        self.ptr <= ptr && ptr + len <= self.end()
    }

    /// Whether this region and the `len` bytes at `ptr` share a byte.
    pub open spec fn overlaps(self, ptr: int, len: int) -> bool {
        self.ptr < ptr + len && ptr < self.end()
    }
}

/// Whether a new region of `len` bytes can start at `ptr`, in a memory of
/// `capacity` bytes in which the regions `live` are taken.
pub open spec fn placeable(capacity: nat, live: Set<Buffer>, ptr: int, len: int) -> bool {
    &&& ptr >= ALIGNMENT
    &&& ptr % (ALIGNMENT as int) == 0
    &&& len > 0
    &&& ptr + len <= capacity
    &&& forall|r: Buffer| #[trigger] live.contains(r) ==> !r.overlaps(ptr, len)
}

/// Whether a new region of `len` bytes can start anywhere.
pub open spec fn has_room(capacity: nat, live: Set<Buffer>, len: int) -> bool {
    exists|ptr: int| placeable(capacity, live, ptr, len)
}

/// Whether `ptr` is the lowest address at which a new region of `len` bytes
/// can start.
pub open spec fn first_fit(capacity: nat, live: Set<Buffer>, ptr: int, len: int) -> bool {
    &&& placeable(capacity, live, ptr, len)
    &&& forall|other: int| placeable(capacity, live, other, len) ==> ptr <= other
}

/// `memory` with `data` written at `ptr`.
pub open spec fn written(memory: Seq<u8>, ptr: int, data: Seq<u8>) -> Seq<u8> {
    Seq::new(
        memory.len(),
        |i: int|
            if ptr <= i < ptr + data.len() {
                data[i - ptr]
            } else {
                memory[i]
            },
    )
}

/// What is written can be read back, and writing leaves the bytes of a
/// region that shares no byte with what is written as they were.
pub proof fn lemma_written(memory: Seq<u8>, ptr: int, data: Seq<u8>, other: Buffer)
    requires
        0 <= ptr,
        ptr + data.len() <= memory.len(),
    ensures
        written(memory, ptr, data).len() == memory.len(),
        written(memory, ptr, data).subrange(ptr, ptr + data.len()) == data,
        other.end() <= memory.len() && !other.overlaps(ptr, data.len() as int) ==> written(
            memory,
            ptr,
            data,
        ).subrange(other.ptr as int, other.end()) == memory.subrange(other.ptr as int, other.end()),
{
    assert(written(memory, ptr, data).subrange(ptr, ptr + data.len()) =~= data);
    if other.end() <= memory.len() && !other.overlaps(ptr, data.len() as int) {
        assert(written(memory, ptr, data).subrange(other.ptr as int, other.end())
            =~= memory.subrange(other.ptr as int, other.end()));
    }
}

/// A memory in which no region is taken has room for every request that
/// fits behind the null address.
pub proof fn lemma_empty_memory_has_room(capacity: nat, len: int)
    requires
        len > 0,
        ALIGNMENT + len <= capacity,
    ensures
        first_fit(capacity, Set::<Buffer>::empty(), ALIGNMENT as int, len),
        has_room(capacity, Set::<Buffer>::empty(), len),
{
    assert(placeable(capacity, Set::<Buffer>::empty(), ALIGNMENT as int, len));
}

/// A region that was placed and is given back leaves the regions that are
/// taken as they were.
pub proof fn lemma_placed_then_freed(capacity: nat, live: Set<Buffer>, taken: Buffer)
    requires
        placeable(capacity, live, taken.ptr as int, taken.len as int),
    ensures
        !live.contains(taken),
        live.insert(taken).remove(taken) == live,
{
    if live.contains(taken) {
        assert(taken.overlaps(taken.ptr as int, taken.len as int));
    }
    assert(live.insert(taken).remove(taken) =~= live);
}

/// Whether one of the first `upto` regions of `regions` shares a byte with
/// the `len` bytes at `ptr`.
spec fn blocked(regions: Seq<Buffer>, upto: int, ptr: int, len: int) -> bool {
    exists|k: int| 0 <= k < upto && (#[trigger] regions[k]).overlaps(ptr, len)
}

/// The lowest multiple of [`ALIGNMENT`] that is not below `address`.
fn align_up(address: usize) -> (aligned: usize)
    requires
        address <= MAX_CAPACITY,
    ensures
        aligned % ALIGNMENT == 0,
        address <= aligned < address + ALIGNMENT,
{
    (address + (ALIGNMENT - 1)) / ALIGNMENT * ALIGNMENT
}

/// A linear memory and the regions of it that are taken.
pub struct Allocator {
    memory: Vec<u8>,
    regions: Vec<Buffer>,
}

impl Allocator {
    /// The invariant of the allocator: the regions lie in the memory, in
    /// address order, and no two of them share a byte.
    pub closed spec fn inv(&self) -> bool {
        &&& self.memory@.len() <= MAX_CAPACITY
        &&& forall|i: int|
            0 <= i < self.regions@.len() ==> {
                let r = #[trigger] self.regions@[i];
                &&& r.ptr >= ALIGNMENT
                &&& r.ptr % ALIGNMENT == 0
                &&& r.len > 0
                &&& r.end() <= self.memory@.len()
            }
        &&& forall|i: int, j: int|
            0 <= i < j < self.regions@.len() ==> (#[trigger] self.regions@[i]).end() <= (
            #[trigger] self.regions@[j]).ptr
    }

    /// The number of bytes of memory.
    pub closed spec fn capacity(&self) -> nat {
        self.memory@.len()
    }

    /// The bytes of memory.
    pub closed spec fn contents(&self) -> Seq<u8> {
        self.memory@
    }

    /// The regions that are taken.
    pub closed spec fn live(&self) -> Set<Buffer> {
        self.regions@.to_set()
    }

    /// What the invariant says of the regions that are taken.
    pub proof fn lemma_live(&self)
        requires
            self.inv(),
        ensures
            self.contents().len() == self.capacity(),
            self.capacity() <= MAX_CAPACITY,
            self.live().finite(),
            forall|r: Buffer| #[trigger]
                self.live().contains(r) ==> {
                    &&& r.ptr >= ALIGNMENT
                    &&& r.ptr % ALIGNMENT == 0
                    &&& r.len > 0
                    &&& r.end() <= self.capacity()
                },
            forall|a: Buffer, b: Buffer|
                #![trigger self.live().contains(a), self.live().contains(b)]
                self.live().contains(a) && self.live().contains(b) && a != b ==> !a.overlaps(
                    b.ptr as int,
                    b.len as int,
                ),
    {
        vstd::seq_lib::seq_to_set_is_finite(self.regions@);
        assert forall|a: Buffer, b: Buffer|
            #![trigger self.live().contains(a), self.live().contains(b)]
            self.live().contains(a) && self.live().contains(b) && a != b implies !a.overlaps(
            b.ptr as int,
            b.len as int,
        ) by {
            let i = choose|i: int| 0 <= i < self.regions@.len() && self.regions@[i] == a;
            let j = choose|j: int| 0 <= j < self.regions@.len() && self.regions@[j] == b;
            if i < j {
                assert(self.regions@[i].end() <= self.regions@[j].ptr);
            } else {
                assert(self.regions@[j].end() <= self.regions@[i].ptr);
            }
        }
    }

    /// A memory of `capacity` zero bytes, or of [`MAX_CAPACITY`] where
    /// `capacity` is larger, with no region taken.
    pub fn new(capacity: usize) -> (a: Allocator)
        ensures
            a.inv(),
            a.capacity() == if capacity <= MAX_CAPACITY {
                capacity
            } else {
                MAX_CAPACITY
            },
            a.contents() == Seq::new(a.capacity(), |i: int| 0u8),
            a.live() == Set::<Buffer>::empty(),
    {
        let size = if capacity <= MAX_CAPACITY {
            capacity
        } else {
            MAX_CAPACITY
        };
        let a = Allocator { memory: vec![0u8; size], regions: Vec::new() };
        proof {
            assert(a.memory@ =~= Seq::new(size as nat, |i: int| 0u8));
            assert(a.regions@.to_set() =~= Set::<Buffer>::empty());
        }
        a
    }

    /// The number of bytes of memory.
    pub fn size(&self) -> (n: usize)
        ensures
            n == self.capacity(),
    {
        self.memory.len()
    }

    /// The memory itself.
    pub fn memory(&self) -> (bytes: &[u8])
        ensures
            bytes@ == self.contents(),
    {
        self.memory.as_slice()
    }

    /// Takes the lowest region of `len` bytes that is free.
    fn reserve(&mut self, len: usize) -> (ptr: usize)
        requires
            old(self).inv(),
            len > 0,
        ensures
            final(self).inv(),
            final(self).capacity() == old(self).capacity(),
            final(self).contents() == old(self).contents(),
            ptr == 0 ==> !has_room(old(self).capacity(), old(self).live(), len as int)
                && final(self).live() == old(self).live(),
            ptr != 0 ==> first_fit(old(self).capacity(), old(self).live(), ptr as int, len as int)
                && final(self).live() == old(self).live().insert(Buffer { ptr, len }),
    {
        let capacity = self.memory.len();
        let count = self.regions.len();
        let mut candidate: usize = ALIGNMENT;
        let mut i: usize = 0;
        let mut found = false;
        while i < count && !found
            invariant
                *self == *old(self),
                self.inv(),
                capacity == self.memory@.len(),
                count == self.regions@.len(),
                len > 0,
                i <= count,
                candidate >= ALIGNMENT,
                candidate % ALIGNMENT == 0,
                candidate <= capacity + ALIGNMENT,
                forall|k: int| 0 <= k < i ==> (#[trigger] self.regions@[k]).end() <= candidate,
                i < count ==> candidate <= self.regions@[i as int].ptr,
                found ==> i < count && candidate + len <= self.regions@[i as int].ptr,
                forall|q: int|
                    ALIGNMENT <= q < candidate && q % (ALIGNMENT as int) == 0 ==> #[trigger] blocked(
                        self.regions@,
                        i as int,
                        q,
                        len as int,
                    ),
            decreases count - i + if found { 0int } else { 1int },
        {
            let r = self.regions[i];
            if r.ptr - candidate >= len {
                found = true;
                continue ;
            }
            let next = align_up(r.ptr + r.len);
            proof {
                let regions = self.regions@;
                assert forall|q: int|
                    ALIGNMENT <= q < next && q % (ALIGNMENT as int) == 0 implies #[trigger] blocked(
                    regions,
                    i + 1,
                    q,
                    len as int,
                ) by {
                    if q < candidate {
                        assert(blocked(regions, i as int, q, len as int));
                        let k = choose|k: int|
                            0 <= k < i && (#[trigger] regions[k]).overlaps(q, len as int);
                        assert(regions[k].overlaps(q, len as int));
                    } else {
                        assert(regions[i as int].overlaps(q, len as int));
                    }
                }
                if i + 1 < count {
                    assert(regions[i as int].end() <= regions[i + 1].ptr);
                }
            }
            candidate = next;
            i = i + 1;
        }
        if !found && (candidate > capacity || capacity - candidate < len) {
            proof {
                let regions = self.regions@;
                assert forall|q: int| !placeable(
                    self.capacity(),
                    self.live(),
                    q,
                    len as int,
                ) by {
                    if ALIGNMENT <= q < candidate && q % (ALIGNMENT as int) == 0 {
                        assert(blocked(regions, i as int, q, len as int));
                        let k = choose|k: int|
                            0 <= k < i && (#[trigger] regions[k]).overlaps(q, len as int);
                        assert(self.live().contains(regions[k]));
                    }
                }
            }
            return 0;
        }
        let ptr = candidate;
        let ghost before = self.regions@;
        self.regions.insert(i, Buffer { ptr, len });
        proof {
            let after = self.regions@;
            let taken = Buffer { ptr, len };
            assert(after == before.insert(i as int, taken));
            assert forall|k: int| 0 <= k < after.len() implies {
                let r = #[trigger] after[k];
                &&& r.ptr >= ALIGNMENT
                &&& r.ptr % ALIGNMENT == 0
                &&& r.len > 0
                &&& r.end() <= self.memory@.len()
            } by {
                if k < i {
                    assert(after[k] == before[k]);
                } else if k > i {
                    assert(after[k] == before[k - 1]);
                }
            }
            assert forall|a: int, b: int| 0 <= a < b < after.len() implies (
            #[trigger] after[a]).end() <= (#[trigger] after[b]).ptr by {
                let a0 = if a < i {
                    a
                } else {
                    a - 1
                };
                let b0 = if b < i {
                    b
                } else {
                    b - 1
                };
                if a != i {
                    assert(after[a] == before[a0]);
                }
                if b != i {
                    assert(after[b] == before[b0]);
                }
                if a != i && b != i {
                    assert(before[a0].end() <= before[b0].ptr);
                } else if a == i {
                    if b0 > i {
                        assert(before[i as int].end() <= before[b0].ptr);
                    }
                } else {
                    assert(before[a0].end() <= candidate);
                }
            }
            assert(after.to_set() =~= before.to_set().insert(taken)) by {
                assert forall|x: Buffer| after.to_set().contains(x) <==> before.to_set().insert(
                    taken,
                ).contains(x) by {
                    if after.contains(x) {
                        let k = choose|k: int| 0 <= k < after.len() && after[k] == x;
                        if k < i {
                            assert(before[k] == x);
                        } else if k > i {
                            assert(before[k - 1] == x);
                        }
                    }
                    if before.contains(x) {
                        let k = choose|k: int| 0 <= k < before.len() && before[k] == x;
                        if k < i {
                            assert(after[k] == x);
                        } else {
                            assert(after[k + 1] == x);
                        }
                    }
                    if x == taken {
                        assert(after[i as int] == x);
                    }
                }
            }
            assert forall|r: Buffer| #[trigger]
                before.to_set().contains(r) implies !r.overlaps(ptr as int, len as int) by {
                let k = choose|k: int| 0 <= k < before.len() && before[k] == r;
                if k < i {
                    assert(before[k].end() <= candidate);
                } else if k > i {
                    assert(before[i as int].end() <= before[k].ptr);
                }
            }
            assert(ptr + len <= capacity) by {
                if found {
                    assert(before[i as int].end() <= capacity);
                }
            }
            assert forall|other: int|
                placeable(
                    old(self).capacity(),
                    old(self).live(),
                    other,
                    len as int,
                ) implies ptr <= other by {
                if other < candidate {
                    assert(blocked(before, i as int, other, len as int));
                    let k = choose|k: int|
                        0 <= k < i && (#[trigger] before[k]).overlaps(other, len as int);
                    assert(old(self).live().contains(before[k]));
                }
            }
        }
        ptr
    }

    /// Takes a region for `size` bytes of input. The result is its address,
    /// or the null pointer where `size` is zero or not below
    /// [`INPUT_CEILING`], or where no free region is large enough.
    pub fn allocate_input(&mut self, size: usize) -> (ptr: usize)
        requires
            old(self).inv(),
        ensures
            final(self).inv(),
            final(self).capacity() == old(self).capacity(),
            final(self).contents() == old(self).contents(),
            ptr == 0 <==> size == 0 || size >= INPUT_CEILING || !has_room(
                old(self).capacity(),
                old(self).live(),
                size as int,
            ),
            ptr == 0 ==> final(self).live() == old(self).live(),
            ptr != 0 ==> first_fit(old(self).capacity(), old(self).live(), ptr as int, size as int)
                && final(self).live() == old(self).live().insert(Buffer { ptr, len: size }),
    {
        if size == 0 || size >= INPUT_CEILING {
            return 0;
        }
        self.reserve(size)
    }

    /// Takes a region for a response of `size` bytes. The result is its
    /// address, or the null pointer where `size` is zero or not below
    /// [`RESPONSE_CEILING`], or where no free region is large enough.
    pub fn allocate_response(&mut self, size: usize) -> (ptr: usize)
        requires
            old(self).inv(),
        ensures
            final(self).inv(),
            final(self).capacity() == old(self).capacity(),
            final(self).contents() == old(self).contents(),
            ptr == 0 <==> size == 0 || size >= RESPONSE_CEILING || !has_room(
                old(self).capacity(),
                old(self).live(),
                size as int,
            ),
            ptr == 0 ==> final(self).live() == old(self).live(),
            ptr != 0 ==> first_fit(old(self).capacity(), old(self).live(), ptr as int, size as int)
                && final(self).live() == old(self).live().insert(Buffer { ptr, len: size }),
    {
        if size == 0 || size >= RESPONSE_CEILING {
            return 0;
        }
        self.reserve(size)
    }

    /// The place of the region that is exactly `(ptr, size)`, if it is taken.
    fn position(&self, ptr: usize, size: usize) -> (at: Option<usize>)
        requires
            self.inv(),
        ensures
            match at {
                Some(i) => i < self.regions@.len() && self.regions@[i as int] == (Buffer {
                    ptr,
                    len: size,
                }),
                None => !self.live().contains(Buffer { ptr, len: size }),
            },
    {
        let mut i: usize = 0;
        while i < self.regions.len()
            invariant
                i <= self.regions@.len(),
                forall|k: int| 0 <= k < i ==> self.regions@[k] != (Buffer { ptr, len: size }),
            decreases self.regions@.len() - i,
        {
            let r = self.regions[i];
            if r.ptr == ptr && r.len == size {
                return Some(i);
            }
            i = i + 1;
        }
        None
    }

    /// Gives back the region that is exactly `(ptr, size)`. Where no such
    /// region is taken, nothing changes.
    pub fn free(&mut self, ptr: usize, size: usize)
        requires
            old(self).inv(),
        ensures
            final(self).inv(),
            final(self).capacity() == old(self).capacity(),
            final(self).contents() == old(self).contents(),
            final(self).live() == old(self).live().remove(Buffer { ptr, len: size }),
    {
        let gone = Buffer { ptr, len: size };
        match self.position(ptr, size) {
            None => {
                proof {
                    assert(self.live() =~= self.live().remove(gone));
                }
            },
            Some(i) => {
                let ghost before = self.regions@;
                self.regions.remove(i);
                proof {
                    let after = self.regions@;
                    assert(after == before.remove(i as int));
                    assert forall|k: int| 0 <= k < after.len() implies #[trigger] after[k] == before[if k
                        < i {
                        k
                    } else {
                        k + 1
                    }] by {}
                    assert forall|a: int, b: int| 0 <= a < b < after.len() implies (
                    #[trigger] after[a]).end() <= (#[trigger] after[b]).ptr by {
                        let a0 = if a < i {
                            a
                        } else {
                            a + 1
                        };
                        let b0 = if b < i {
                            b
                        } else {
                            b + 1
                        };
                        assert(before[a0].end() <= before[b0].ptr);
                    }
                    assert(after.to_set() =~= before.to_set().remove(gone)) by {
                        assert forall|x: Buffer|
                            after.to_set().contains(x) <==> before.to_set().remove(gone).contains(
                                x,
                            ) by {
                            if after.contains(x) {
                                let k = choose|k: int| 0 <= k < after.len() && after[k] == x;
                                let k0 = if k < i {
                                    k
                                } else {
                                    k + 1
                                };
                                assert(before[k0] == x);
                                if k0 < i {
                                    assert(before[k0].end() <= before[i as int].ptr);
                                } else {
                                    assert(before[i as int].end() <= before[k0].ptr);
                                }
                            }
                            if before.contains(x) && x != gone {
                                let k = choose|k: int| 0 <= k < before.len() && before[k] == x;
                                if k < i {
                                    assert(after[k] == x);
                                } else {
                                    assert(after[k - 1] == x);
                                }
                            }
                        }
                    }
                }
            },
        }
    }

    /// The region that holds all of the `len` bytes at `ptr`, if one does:
    /// the lowest one, where no bytes are asked for and two regions that
    /// adjoin both hold them.
    pub fn region_of(&self, ptr: usize, len: usize) -> (found: Option<Buffer>)
        requires
            self.inv(),
        ensures
            match found {
                Some(r) => {
                    &&& self.live().contains(r)
                    &&& r.covers(ptr as int, len as int)
                    &&& forall|other: Buffer| #[trigger]
                        self.live().contains(other) && other.covers(ptr as int, len as int)
                            ==> r.ptr <= other.ptr
                },
                None => forall|r: Buffer| #[trigger]
                    self.live().contains(r) ==> !r.covers(ptr as int, len as int),
            },
    {
        let mut i: usize = 0;
        while i < self.regions.len()
            invariant
                self.inv(),
                i <= self.regions@.len(),
                forall|k: int|
                    0 <= k < i ==> !(#[trigger] self.regions@[k]).covers(ptr as int, len as int),
            decreases self.regions@.len() - i,
        {
            let r = self.regions[i];
            if r.ptr <= ptr && len <= r.len && ptr - r.ptr <= r.len - len {
                proof {
                    assert(self.regions@.contains(r));
                    assert forall|other: Buffer| #[trigger]
                        self.live().contains(other) && other.covers(
                            ptr as int,
                            len as int,
                        ) implies r.ptr <= other.ptr by {
                        let k = choose|k: int|
                            0 <= k < self.regions@.len() && self.regions@[k] == other;
                        if k > i {
                            assert(self.regions@[i as int].end() <= self.regions@[k].ptr);
                        }
                    }
                }
                return Some(r);
            }
            i = i + 1;
        }
        proof {
            assert forall|r: Buffer| #[trigger] self.live().contains(r) implies !r.covers(
                ptr as int,
                len as int,
            ) by {
                let k = choose|k: int| 0 <= k < self.regions@.len() && self.regions@[k] == r;
                assert(!self.regions@[k].covers(ptr as int, len as int));
            }
        }
        None
    }

    /// The `len` bytes at `ptr`, where one region that is taken holds them
    /// all.
    pub fn read(&self, ptr: usize, len: usize) -> (bytes: Option<Vec<u8>>)
        requires
            self.inv(),
        ensures
            bytes is Some <==> exists|r: Buffer| #[trigger]
                self.live().contains(r) && r.covers(ptr as int, len as int),
            bytes matches Some(b) ==> b@ == self.contents().subrange(ptr as int, ptr + len),
    {
        match self.region_of(ptr, len) {
            Some(r) => Some(self.load(ptr, len)),
            None => None,
        }
    }

    /// Writes `data` at `ptr`, where one region that is taken holds all of
    /// the bytes to be written. The result says whether it did.
    pub fn write(&mut self, ptr: usize, data: &[u8]) -> (done: bool)
        requires
            old(self).inv(),
        ensures
            final(self).inv(),
            final(self).capacity() == old(self).capacity(),
            final(self).live() == old(self).live(),
            done <==> exists|r: Buffer| #[trigger]
                old(self).live().contains(r) && r.covers(ptr as int, data@.len() as int),
            final(self).contents() == if done {
                written(old(self).contents(), ptr as int, data@)
            } else {
                old(self).contents()
            },
    {
        match self.region_of(ptr, data.len()) {
            Some(r) => {
                self.fill(ptr, data);
                true
            },
            None => false,
        }
    }

    /// The `len` bytes at `ptr`.
    pub(crate) fn load(&self, ptr: usize, len: usize) -> (bytes: Vec<u8>)
        requires
            self.inv(),
            ptr + len <= self.capacity(),
        ensures
            bytes@ == self.contents().subrange(ptr as int, ptr + len),
    {
        let mut bytes: Vec<u8> = Vec::new();
        let mut i: usize = 0;
        while i < len
            invariant
                i <= len,
                ptr + len <= self.memory@.len() <= MAX_CAPACITY,
                bytes@ == self.memory@.subrange(ptr as int, ptr + i),
            decreases len - i,
        {
            bytes.push(self.memory[ptr + i]);
            proof {
                assert(bytes@ =~= self.memory@.subrange(ptr as int, ptr + i + 1));
            }
            i = i + 1;
        }
        bytes
    }

    /// Writes `data` at `ptr`.
    pub(crate) fn fill(&mut self, ptr: usize, data: &[u8])
        requires
            old(self).inv(),
            ptr + data@.len() <= old(self).capacity(),
        ensures
            final(self).inv(),
            final(self).capacity() == old(self).capacity(),
            final(self).live() == old(self).live(),
            final(self).contents() == written(old(self).contents(), ptr as int, data@),
    {
        let n = data.len();
        let mut i: usize = 0;
        while i < n
            invariant
                i <= n,
                n == data@.len(),
                ptr + n <= self.memory@.len() <= MAX_CAPACITY,
                self.memory@.len() == old(self).memory@.len(),
                self.regions == old(self).regions,
                self.memory@ == written(old(self).memory@, ptr as int, data@.take(i as int)),
            decreases n - i,
        {
            self.memory.set(ptr + i, data[i]);
            proof {
                assert(self.memory@ =~= written(
                    old(self).memory@,
                    ptr as int,
                    data@.take(i + 1),
                ));
            }
            i = i + 1;
        }
        proof {
            assert(data@.take(n as int) =~= data@);
        }
    }
}

} // verus!
