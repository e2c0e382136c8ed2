//! The byte-swapped memory buffer at the heart of the recompilation toolchain:
//! it models the main random-access memory of a 32-bit big-endian target
//! machine as seen from a little-endian host.
//!
//! A buffer either owns its storage (built from a byte sequence) or borrows a
//! region supplied by an embedding host. Reads go through a one-based logical
//! address that is swizzled (XOR 3) into a physical offset, and the logical
//! length trims trailing zero content while honouring 4-byte swizzle groups.

use vstd::prelude::*;
use vstd::slice::slice_index_get;
use vstd::slice::slice_subrange;
use vstd::slice::slice_to_vec;

verus! {

/// Capacity, in bytes, of a buffer that borrows the full target address space.
pub const BORROWED_CAPACITY: usize = 0x20000000;

/// The swizzled physical offset for a zero-based logical offset: within each
/// 4-byte group, byte 0 swaps with byte 3 and byte 1 with byte 2, so a linear
/// big-endian 32-bit word address lands on the matching little-endian byte.
pub open spec fn swizzle(offset: usize) -> usize {
    offset ^ 3
}

/// The length of `s` once every trailing zero byte is removed: the position
/// just past the last non-zero byte, or zero when every byte is zero.
pub open spec fn trimmed_len(s: Seq<u8>) -> nat
    decreases s.len(),
{
    if s.len() == 0 {
        0
    } else if s[s.len() - 1] != 0 {
        s.len()
    } else {
        trimmed_len(s.subrange(0, s.len() - 1))
    }
}

/// One when position `p` of `s` holds a non-zero byte, zero otherwise.
pub open spec fn probe_hit(s: Seq<u8>, p: usize) -> nat {
    if p < s.len() && s[p as int] != 0 {
        1nat
    } else {
        0nat
    }
}

/// How many of the four swizzled positions of the 4-byte group around `l`
/// hold a non-zero byte of `s`.
pub open spec fn group_bonus(s: Seq<u8>, l: usize) -> nat {
    probe_hit(s, l) + probe_hit(s, l ^ 1) + probe_hit(s, l ^ 2) + probe_hit(s, l ^ 3)
}

/// The logical length of a stored byte sequence: trailing zero bytes are
/// trimmed in raw physical order, then the trimmed length grows by one for
/// each non-zero byte among the four swizzled positions of its final 4-byte
/// group, never beyond the capacity. A big-endian word whose highest physical
/// byte is zero but whose lower bytes are not is thereby counted in full.
pub open spec fn logical_len(s: Seq<u8>) -> nat
    recommends
        s.len() <= usize::MAX,
{
    let extended: nat = trimmed_len(s) + group_bonus(s, trimmed_len(s) as usize);
    if extended <= s.len() {
        extended
    } else {
        s.len()
    }
}

/// A trim boundary is the trimmed length: if every byte from `l` on is zero
/// and the byte just below `l` (when there is one) is not, the trimmed length
/// of `s` is exactly `l`.
proof fn lemma_trimmed_len_at(s: Seq<u8>, l: int)
    requires
        0 <= l <= s.len(),
        forall|j: int| l <= j < s.len() ==> s[j] == 0,
        l == 0 || s[l - 1] != 0,
    ensures
        trimmed_len(s) == l,
    decreases s.len(),
{
    if s.len() == 0 {
    } else if s[s.len() - 1] != 0 {
        assert(l == s.len());
    } else {
        let prefix = s.subrange(0, s.len() - 1);
        assert(l < s.len());
        assert(forall|j: int| l <= j < prefix.len() ==> prefix[j] == s[j]);
        if l > 0 {
            assert(prefix[l - 1] == s[l - 1]);
        }
        lemma_trimmed_len_at(prefix, l);
    }
}

/// Failures surfaced by buffer operations.
#[derive(Clone, Copy, Debug, PartialEq, Eq, Structural)]
pub enum RdramError {
    /// An indexed read outside `[1, capacity]`, or one whose swizzled physical
    /// offset falls outside the storage. Carries the capacity that bounds the
    /// valid range and the offending logical index.
    OutOfRange { capacity: usize, index: i64 },
}

/// The byte region behind a buffer: either a heap allocation the buffer is
/// responsible for, or a region borrowed from an external owner that must
/// outlive the buffer. The split makes releasing a borrowed region
/// unrepresentable.
#[derive(Debug)]
enum Storage<'a> {
    Owned(Vec<u8>),
    Borrowed(&'a [u8]),
}

/// The emulated main memory of the target machine.
///
/// `capacity` is fixed at construction: the source length for an owned
/// buffer, [`BORROWED_CAPACITY`] for a borrowed one. The view `self@` is the
/// sequence of the first `capacity` physical bytes, in host order.
#[derive(Debug)]
pub struct RDRAM<'a> {
    storage: Storage<'a>,
    capacity: usize,
}

impl<'a> View for RDRAM<'a> {
    type V = Seq<u8>;

    closed spec fn view(&self) -> Seq<u8> {
        match self.storage {
            Storage::Owned(data) => data@,
            Storage::Borrowed(region) => region@.take(self.capacity as int),
        }
    }
}

impl<'a> RDRAM<'a> {
    #[verifier::type_invariant]
    spec fn wf(self) -> bool {
        match self.storage {
            Storage::Owned(data) => self.capacity == data.len(),
            Storage::Borrowed(region) => self.capacity <= region.len(),
        }
    }

    /// The fixed size of the buffer in bytes.
    pub closed spec fn spec_capacity(&self) -> usize {
        self.capacity
    }

    /// Whether this buffer is responsible for releasing its storage.
    pub closed spec fn owns_storage(&self) -> bool {
        self.storage is Owned
    }

    /// Wraps a region supplied by an embedding host, without taking ownership
    /// of it. The caller guarantees the region covers the full target address
    /// space; the buffer reads exactly its first [`BORROWED_CAPACITY`] bytes.
    pub fn new(region: &'a [u8]) -> (r: Self)
        requires
            region@.len() >= BORROWED_CAPACITY,
        ensures
            !r.owns_storage(),
            r.spec_capacity() == BORROWED_CAPACITY,
            r@ == region@.take(BORROWED_CAPACITY as int),
    {
        RDRAM { storage: Storage::Borrowed(region), capacity: BORROWED_CAPACITY }
    }

    /// The number of bytes the buffer holds; equals the length of its view.
    pub fn capacity(&self) -> (r: usize)
        ensures
            r == self.spec_capacity(),
            r == self@.len(),
    {
        proof {
            use_type_invariant(self);
        }
        self.capacity
    }

    /// Whether this buffer owns its storage, as the embedding host sees it.
    pub fn owns_raw_data(&self) -> (r: bool)
        ensures
            r == self.owns_storage(),
    {
        match &self.storage {
            Storage::Owned(_) => true,
            Storage::Borrowed(_) => false,
        }
    }

    /// The stored bytes in raw physical order, without any swizzling.
    pub fn as_bytes(&self) -> (r: &[u8])
        ensures
            r@ == self@,
    {
        proof {
            use_type_invariant(self);
        }
        match &self.storage {
            Storage::Owned(data) => data.as_slice(),
            Storage::Borrowed(region) => slice_subrange(region, 0, self.capacity),
        }
    }

    /// Reads the byte a one-based logical index refers to, translating the
    /// index through the big-endian swizzle. The read succeeds exactly when
    /// the index lies in `[1, capacity]` and its swizzled physical offset is
    /// still inside the storage (the offset can escape only when the capacity
    /// is not a multiple of 4); every other index reports the valid range and
    /// the offending value.
    pub fn index(&self, index: i64) -> (r: Result<u8, RdramError>)
        ensures
            ({
                let valid = 1 <= index && index as int <= self.spec_capacity() as int
                    && swizzle((index - 1) as usize) < self.spec_capacity();
                if valid {
                    r == Ok::<u8, RdramError>(self@[swizzle((index - 1) as usize) as int])
                } else {
                    r == Err::<u8, RdramError>(
                        RdramError::OutOfRange { capacity: self.spec_capacity(), index },
                    )
                }
            }),
    {
        proof {
            use_type_invariant(self);
        }
        if index < 1 || index as u64 > self.capacity as u64 {
            return Err(RdramError::OutOfRange { capacity: self.capacity, index });
        }
        let zero_based: usize = (index as u64 - 1) as usize;
        let physical: usize = zero_based ^ 3;
        if physical >= self.capacity {
            return Err(RdramError::OutOfRange { capacity: self.capacity, index });
        }
        Ok(self.read_byte(physical))
    }

    /// The logical length of the buffer: the extent of meaningful data once
    /// trailing zero content is trimmed, word-aware as [`logical_len`]
    /// describes. A buffer whose final physical byte is non-zero keeps its
    /// full capacity; an all-zero buffer has length zero.
    pub fn len(&self) -> (r: usize)
        ensures
            r == logical_len(self@),
    {
        proof {
            use_type_invariant(self);
        }
        let capacity: usize = self.capacity;
        assert(self@.len() == capacity);

        let mut length: usize = capacity;
        while length > 0 && self.read_byte(length - 1) == 0
            invariant
                length <= self@.len(),
                forall|j: int| length <= j < self@.len() ==> self@[j] == 0,
            decreases length,
        {
            length = length - 1;
        }
        proof {
            lemma_trimmed_len_at(self@, length as int);
        }

        let p1: usize = length ^ 1;
        let p2: usize = length ^ 2;
        let p3: usize = length ^ 3;
        let mut bonus: usize = 0;
        if length < capacity && self.read_byte(length) != 0 {
            bonus = bonus + 1;
        }
        if p1 < capacity && self.read_byte(p1) != 0 {
            bonus = bonus + 1;
        }
        if p2 < capacity && self.read_byte(p2) != 0 {
            bonus = bonus + 1;
        }
        if p3 < capacity && self.read_byte(p3) != 0 {
            bonus = bonus + 1;
        }
        assert(bonus == group_bonus(self@, length));

        if bonus <= capacity - length {
            length + bonus
        } else {
            capacity
        }
    }

    /// Reads the byte at a raw physical offset.
    fn read_byte(&self, offset: usize) -> (r: u8)
        requires
            offset < self@.len(),
        ensures
            r == self@[offset as int],
    {
        proof {
            use_type_invariant(self);
        }
        match &self.storage {
            Storage::Owned(data) => data[offset],
            Storage::Borrowed(region) => *slice_index_get(region, offset),
        }
    }
}

impl<'a> Clone for RDRAM<'a> {
    /// Deep-copies the buffer. The clone always owns a fresh allocation with
    /// the same capacity and the same bytes, whatever the source's ownership:
    /// a borrowed region has no shared-ownership mechanism, so cloning
    /// deliberately materialises an independent owned copy.
    fn clone(&self) -> (r: Self)
        ensures
            r.owns_storage(),
            r.spec_capacity() == self.spec_capacity(),
            r@ == self@,
    {
        proof {
            use_type_invariant(self);
        }
        assert(self@.len() == self.spec_capacity());
        let buffer: Vec<u8> = slice_to_vec(self.as_bytes());
        RDRAM::from(buffer)
    }
}

impl<'a> From<Vec<u8>> for RDRAM<'a> {
    /// Builds an owned buffer holding exactly the given bytes; its capacity is
    /// the length of the source sequence.
    fn from(data: Vec<u8>) -> (r: Self)
        ensures
            r.owns_storage(),
            r.spec_capacity() == data@.len(),
            r@ == data@,
    {
        let capacity: usize = data.len();
        RDRAM { storage: Storage::Owned(data), capacity }
    }
}

impl<'a> vstd::std_specs::convert::FromSpecImpl<Vec<u8>> for RDRAM<'a> {
    open spec fn obeys_from_spec() -> bool {
        true
    }

    closed spec fn from_spec(data: Vec<u8>) -> Self {
        RDRAM { storage: Storage::Owned(data), capacity: data.len() as usize }
    }
}

/// Law: the logical length of an all-zero byte sequence is zero. Every byte
/// is trailing zero content, and no swizzled position of the final group can
/// hold a non-zero byte.
pub proof fn lemma_logical_len_all_zero(s: Seq<u8>)
    requires
        forall|j: int| 0 <= j < s.len() ==> s[j] == 0,
    ensures
        logical_len(s) == 0,
{
    lemma_trimmed_len_at(s, 0);
    assert(group_bonus(s, 0) == 0);
}

/// Law: a byte sequence whose only non-zero byte sits at the final physical
/// offset has its full length as logical length. The trim stops immediately
/// at that byte, and the group correction never pushes the length past the
/// capacity.
pub proof fn lemma_logical_len_last_nonzero(s: Seq<u8>)
    requires
        s.len() >= 1,
        s[s.len() - 1] != 0,
        forall|j: int| 0 <= j < s.len() - 1 ==> s[j] == 0,
    ensures
        logical_len(s) == s.len(),
{
    assert(trimmed_len(s) == s.len());
}

} // verus!
