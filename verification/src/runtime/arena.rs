//! The arena allocator.
//!
//! Every value that a script creates during one invocation lives in a bump arena that is
//! reset wholesale when the call returns. The arena hands out [`ArenaRef`] offsets into a
//! backing buffer.
use vstd::prelude::*;

verus! {

/// A handle to a region allocated in an [`Arena`]: a byte offset and a length. Valid until
/// the next [`Arena::reset`].
#[derive(Clone, Copy, Debug, PartialEq, Eq, Hash, Structural)]
pub struct ArenaRef {
    pub offset: usize,
    pub len: usize,
}

/// A bump allocator reset once per invocation. A reset keeps the backing storage, so that
/// later invocations reuse it.
pub struct Arena {
    buf: Vec<u8>,
}

/// The smallest multiple of `align` that is at least `n`.
pub open spec fn aligned(n: int, align: int) -> int {
    if n % align == 0 {
        n
    } else {
        n + (align - n % align)
    }
}

/// `n` zero bytes.
pub open spec fn zeros(n: int) -> Seq<u8> {
    Seq::new(n as nat, |i: int| 0u8)
}

/// Whether a region lies inside a buffer.
pub open spec fn holds(buf: Seq<u8>, r: ArenaRef) -> bool {
    r.offset + r.len <= buf.len()
}

/// The bytes of a region.
pub open spec fn region(buf: Seq<u8>, r: ArenaRef) -> Seq<u8> {
    buf.subrange(r.offset as int, r.offset + r.len)
}

/// `Vec::capacity`: at least the number of elements. How much more there is depends on the
/// allocator and is not stated, nor that clearing keeps it.
#[verifier::external_body]
fn capacity_of(v: &Vec<u8>) -> (r: usize)
    ensures
        r >= v@.len(),
{
    v.capacity()
}

impl View for Arena {
    type V = Seq<u8>;

    closed spec fn view(&self) -> Seq<u8> {
        self.buf@
    }
}

impl Arena {
    /// A new, empty arena.
    pub fn new() -> (r: Self)
        ensures
            r@ == Seq::<u8>::empty(),
    {
        Arena { buf: Vec::new() }
    }

    /// A new arena that preallocates `cap` bytes of backing storage.
    pub fn with_capacity(cap: usize) -> (r: Self)
        ensures
            r@ == Seq::<u8>::empty(),
    {
        Arena { buf: Vec::with_capacity(cap) }
    }

    /// Bytes currently allocated.
    pub fn bytes_used(&self) -> (r: usize)
        ensures
            r == self@.len(),
    {
        self.buf.len()
    }

    /// Backing capacity in bytes.
    pub fn capacity(&self) -> (r: usize)
        ensures
            r >= self@.len(),
    {
        capacity_of(&self.buf)
    }

    /// Reclaim every allocation made so far.
    pub fn reset(&mut self)
        ensures
            final(self)@ == Seq::<u8>::empty(),
    {
        self.buf.clear();
    }

    /// Allocate `len` zeroed bytes at a multiple of `align`, after what is there.
    pub fn allocate(&mut self, len: usize, align: usize) -> (r: ArenaRef)
        requires
            align > 0,
            aligned(old(self)@.len() as int, align as int) + len <= usize::MAX,
        ensures
            r.offset == aligned(old(self)@.len() as int, align as int),
            r.len == len,
            final(self)@ == old(self)@ + zeros(r.offset + len - old(self)@.len()),
    {
        let used: usize = self.buf.len();
        let misalign: usize = used % align;
        let offset: usize = if misalign != 0 {
            used + (align - misalign)
        } else {
            used
        };
        self.buf.resize(offset + len, 0);
        assert(self@ =~= old(self)@ + zeros(offset + len - old(self)@.len()));
        ArenaRef { offset, len }
    }

    /// Copy `data` into a freshly allocated region at a multiple of `align`.
    pub fn alloc_slice(&mut self, data: &[u8], align: usize) -> (r: ArenaRef)
        requires
            align > 0,
            aligned(old(self)@.len() as int, align as int) + data@.len() <= usize::MAX,
        ensures
            r.offset == aligned(old(self)@.len() as int, align as int),
            r.len == data@.len(),
            final(self)@ == old(self)@ + zeros(r.offset - old(self)@.len()) + data@,
    {
        let r = self.allocate(data.len(), align);
        self.write(r, data);
        assert(self@ =~= old(self)@ + zeros(r.offset - old(self)@.len()) + data@);
        r
    }

    /// Overwrite a region with bytes of its length.
    fn write(&mut self, r: ArenaRef, data: &[u8])
        requires
            holds(old(self)@, r),
            data@.len() == r.len,
        ensures
            final(self)@ == old(self)@.subrange(0, r.offset as int) + data@ + old(self)@.subrange(
                r.offset + r.len,
                old(self)@.len() as int,
            ),
    {
        let n: usize = self.buf.len();
        let mut i: usize = 0;
        while i < r.len
            invariant
                i <= r.len,
                n == self@.len(),
                data@.len() == r.len,
                self@.len() == old(self)@.len(),
                holds(self@, r),
                forall|k: int| r.offset <= k < r.offset + i ==> (#[trigger] self@[k]) == data@[k
                    - r.offset],
                forall|k: int|
                    0 <= k < self@.len() && !(r.offset <= k < r.offset + i) ==> (
                    #[trigger] self@[k]) == old(self)@[k],
            decreases r.len - i,
        {
            self.buf.set(r.offset + i, data[i]);
            i += 1;
        }
        assert(self@ =~= old(self)@.subrange(0, r.offset as int) + data@ + old(self)@.subrange(
            r.offset + r.len,
            old(self)@.len() as int,
        ));
    }

    /// Read the bytes of a region.
    pub fn bytes(&self, r: ArenaRef) -> (b: &[u8])
        requires
            holds(self@, r),
        ensures
            b@ == region(self@, r),
    {
        let n: usize = self.buf.len();
        assert(n == self@.len());
        vstd::slice::slice_subrange(self.buf.as_slice(), r.offset, r.offset + r.len)
    }

    /// Mutably access the bytes of a region.
    pub fn bytes_mut(&mut self, r: ArenaRef) -> (b: &mut [u8])
        requires
            holds(old(self)@, r),
        ensures
            b@ == region(old(self)@, r),
            final(self)@ == old(self)@.subrange(0, r.offset as int) + final(b)@ + old(
                self,
            )@.subrange(r.offset + r.len, old(self)@.len() as int),
    {
        let (_, rest) = self.buf.as_mut_slice().split_at_mut(r.offset);
        let (b, _) = rest.split_at_mut(r.len);
        b
    }
}

impl Default for Arena {
    fn default() -> (r: Self)
        ensures
            r@ == Seq::<u8>::empty(),
    {
        Self::new()
    }
}

/// An aligned offset is a multiple of the alignment, no smaller than the offset, and the
/// padding is less than the alignment.
pub proof fn law_alignment(n: int, align: int)
    requires
        align > 0,
    ensures
        aligned(n, align) % align == 0,
        n <= aligned(n, align) < n + align,
{
    if n % align != 0 {
        let q = n / align;
        assert(n == align * q + n % align) by {
            vstd::arithmetic::div_mod::lemma_fundamental_div_mod(n, align);
        }
        assert(aligned(n, align) == align * (q + 1)) by (nonlinear_arith)
            requires
                n == align * q + n % align,
                aligned(n, align) == n + (align - n % align),
        ;
        vstd::arithmetic::div_mod::lemma_mod_multiples_basic(q + 1, align);
        assert((q + 1) * align == align * (q + 1)) by (nonlinear_arith);
    }
}

/// A new region reads as zeros, and every region that was there before reads as it did.
pub proof fn law_allocation_keeps_regions(buf: Seq<u8>, len: int, align: int, old_r: ArenaRef, r: ArenaRef)
    requires
        align > 0,
        len >= 0,
        holds(buf, old_r),
        r.offset == aligned(buf.len() as int, align),
        r.len == len,
    ensures
        ({
            let after = buf + zeros(r.offset + len - buf.len());
            &&& holds(after, r)
            &&& region(after, r) == zeros(len)
            &&& region(after, old_r) == region(buf, old_r)
            &&& old_r.offset + old_r.len <= r.offset
        }),
{
    law_alignment(buf.len() as int, align);
    let after = buf + zeros(r.offset + len - buf.len());
    assert(region(after, r) =~= zeros(len));
    assert(region(after, old_r) =~= region(buf, old_r));
}

} // verus!
