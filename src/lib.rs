use vstd::prelude::*;

pub mod allocators;
pub mod block;

use block::{round_up, Size};

verus! {

/// Why an operation on flash locations or on the medium failed.
#[derive(Clone, Copy, Debug, PartialEq, Eq, Structural)]
pub enum Error {
    Io,
    Alignment,
    Programmer,
    Size,
    Overflow,
}

/// A flash location that is aligned on a block boundary.
///
/// The block size travels with the address, so that locations of different
/// granularity are told apart wherever they meet.
#[derive(Clone, Copy, Debug, PartialEq, Eq, Structural, PartialOrd, Ord, Hash)]
pub struct Location {
    addr: u32,
    bsize: Size,
}

impl Location {
    /// The address in bytes.
    pub closed spec fn offset(self) -> int {
        self.addr as int
    }

    /// The block size this location is aligned to.
    pub closed spec fn block_size(self) -> Size {
        self.bsize
    }

    /// The block size in bytes.
    pub open spec fn block_bytes(self) -> int {
        self.block_size().spec_bytes() as int
    }

    /// Well-formedness, held by every location: the address is a multiple of the block size
    /// and fits in 32 bits.
    #[verifier::type_invariant]
    pub open spec fn wf(self) -> bool {
        &&& self.offset() % self.block_bytes() == 0
        &&& 0 <= self.offset() <= u32::MAX
    }

    /// The location `loc`, provided it is a multiple of `bsize`.
    pub fn try_new(bsize: Size, loc: u32) -> (r: Result<Location, Error>)
        ensures
            r is Ok <==> loc as int % bsize.spec_bytes() as int == 0,
            r matches Ok(l) ==> l.offset() == loc && l.block_size() == bsize,
            r matches Err(e) ==> e == Error::Alignment,
    {
        if !bsize.is_aligned(loc as usize) {
            return Err(Error::Alignment);
        }
        Ok(Location { addr: loc, bsize })
    }

    /// Advances by `amount` bytes, which must be a multiple of the block size.
    pub fn add(&self, amount: usize) -> (r: Result<Self, Error>)
        ensures
            r is Ok <==> amount as int % self.block_bytes() == 0 && self.offset() + amount
                <= u32::MAX,
            r matches Ok(l) ==> (l.offset() == self.offset() + amount && l.block_size()
                == self.block_size()),
            r matches Err(e) ==> e == (if amount as int % self.block_bytes() == 0 {
                Error::Overflow
            } else {
                Error::Alignment
            }),
    {
        proof {
            use_type_invariant(self);
        }
        if !self.bsize.is_aligned(amount) {
            return Err(Error::Alignment);
        }
        if amount > u32::MAX as usize {
            return Err(Error::Overflow);
        }
        let amount = amount as u32;
        let location: u32 = self.addr;
        let pos = match location.checked_add(amount) {
            Some(pos) => pos,
            None => return Err(Error::Overflow),
        };
        proof {
            vstd::arithmetic::div_mod::lemma_add_mod_noop(
                location as int,
                amount as int,
                self.bsize.spec_bytes() as int,
            );
        }
        Location::try_new(self.bsize, pos)
    }

    /// Round up to a multiple of block size.
    pub fn add_round_up(&self, amount: usize) -> (r: Result<Self, Error>)
        ensures
            r is Ok <==> self.offset() + round_up(amount as int, self.block_bytes()) <= u32::MAX,
            r matches Ok(l) ==> (l.offset() == self.offset() + round_up(
                amount as int,
                self.block_bytes(),
            ) && l.block_size() == self.block_size()),
            r matches Err(e) ==> e == Error::Overflow,
    {
        proof {
            block::lemma_round_up(amount as int, self.bsize.spec_bytes() as int);
        }
        let amount = match self.bsize.align_up(amount) {
            Some(a) => a,
            None => return Err(Error::Overflow),
        };
        self.add(amount)
    }

    /// A location is determined by its address and its block size.
    pub proof fn lemma_location_eq(a: Location, b: Location)
        requires
            a.offset() == b.offset(),
            a.block_size() == b.block_size(),
        ensures
            a == b,
    {
    }

    /// The block size this location is aligned to.
    pub fn bsize(&self) -> (r: Size)
        ensures
            r == self.block_size(),
    {
        self.bsize
    }

    /// Note: Assumed start <= end, otherwise result will be 0.
    pub fn diff(start: Self, end: Self) -> (r: u32)
        ensures
            r == (if start.offset() <= end.offset() {
                end.offset() - start.offset()
            } else {
                0
            }),
    {
        end.addr.saturating_sub(start.addr)
    }
}

impl From<Location> for u32 {
    fn from(val: Location) -> (r: u32)
        ensures
            r == val.offset(),
    {
        val.addr
    }
}

impl vstd::std_specs::convert::FromSpecImpl<Location> for u32 {
    open spec fn obeys_from_spec() -> bool {
        true
    }

    open spec fn from_spec(val: Location) -> u32 {
        val.offset() as u32
    }
}

impl From<Location> for usize {
    fn from(val: Location) -> (r: usize)
        ensures
            r == val.offset(),
    {
        val.addr as usize
    }
}

impl vstd::std_specs::convert::FromSpecImpl<Location> for usize {
    open spec fn obeys_from_spec() -> bool {
        true
    }

    open spec fn from_spec(val: Location) -> usize {
        val.offset() as usize
    }
}

/// Something that hands out block-aligned ranges.
pub trait Allocator {
    /// The consistency condition of the allocator's state.
    spec fn wf(&self) -> bool;

    /// From the free ranges, take a range of at least SIZE Bytes,
    /// if possible. Otherwise return None.
    fn alloc_round_up(&mut self, size: usize) -> (r: Option<Range>)
        requires
            old(self).wf(),
        ensures
            final(self).wf(),
            r matches Some(rg) ==> rg.wf() && rg.spec_size() >= size,
    ;

    /// An upper bound on the largest request that can still succeed.
    fn max_contiguous_capacity(&self) -> usize
        requires
            self.wf(),
    ;
}

/// A marker trait that signifies that a type is aligned on some boundary.
pub trait Aligned {}

/// Reading from a block-erasable medium.
pub trait Read {
    /// Read exactly the right amount from the location to fill the
    /// entire BUFFER that was passed.
    fn read_exact(&self, loc: Location, buf: &mut [u8]) -> Result<(), Error>;

    /// Reads a block of data.
    fn read_block(&self, loc: Location, buf: &mut [u8]) -> (r: Result<(), Error>)
        ensures
            old(buf)@.len() != loc.block_bytes() ==> r == Err::<(), Error>(Error::Programmer)
                && final(buf)@ == old(buf)@,
    {
        if buf.len() != usize::from(loc.bsize()) {
            return Err(Error::Programmer);
        }
        self.read_exact(loc, buf)
    }
}

/// Writing to a block-erasable medium.
pub trait Write {
    /// Erase a block at the given location.
    fn erase(&self, loc: Location) -> Result<(), Error>;

    /// Writes a block, erasing the remainder if the given data
    /// are shorter than a block.
    fn write_block(&self, location: Location, buf: &[u8]) -> Result<(), Error>
        requires
            0 < buf@.len() <= location.block_bytes(),
    ;

    /// Writes data into contiguous blocks starting at the given
    /// location.
    fn write(&self, location: Location, buf: &[u8]) -> (r: Result<(), Error>)
        ensures
            buf@.len() == 0 ==> r is Ok,
            r is Ok ==> location.offset() + buf@.len() - buf@.len() as int % location.block_bytes()
                <= u32::MAX,
    {
        let bsize = usize::from(location.bsize());
        let mut loc = location;
        let mut pos: usize = 0;
        while pos < buf.len()
            invariant
                bsize == location.block_bytes(),
                loc.offset() == location.offset() + pos,
                loc.block_size() == location.block_size(),
                pos <= buf@.len(),
                pos as int % location.block_bytes() == 0,
            decreases buf@.len() - pos,
        {
            let end = chunk_end(buf.len(), pos, bsize);
            let chunk = vstd::slice::slice_subrange(buf, pos, end);
            match self.write_block(loc, chunk) {
                Ok(()) => {},
                Err(e) => return Err(e),
            }
            // Only the last chunk can be shorter than a block.
            if end - pos != bsize {
                proof {
                    use_type_invariant(loc);
                    lemma_tail_mod(buf@.len() as int, pos as int, bsize as int);
                }
                return Ok(());
            }
            loc = match loc.add(bsize) {
                Ok(l) => l,
                Err(e) => return Err(e),
            };
            proof {
                vstd::arithmetic::div_mod::lemma_mod_add_multiples_vanish(pos as int, bsize as int);
            }
            pos = end;
        }
        proof {
            use_type_invariant(loc);
            lemma_tail_mod(buf@.len() as int, pos as int, bsize as int);
        }
        Ok(())
    }
}

/// Where the chunk of a `len`-byte buffer that starts at `pos` ends, for chunks of `bsize`
/// bytes: one block further on, or at the end of the buffer if that comes first.
pub fn chunk_end(len: usize, pos: usize, bsize: usize) -> (end: usize)
    requires
        pos < len,
        bsize > 0,
    ensures
        end == (if len - pos < bsize {
            len as int
        } else {
            pos + bsize
        }),
{
    if len - pos < bsize {
        len
    } else {
        pos + bsize
    }
}

/// A length that lies less than one block past a block boundary `pos` has `pos` as its
/// last block boundary.
proof fn lemma_tail_mod(len: int, pos: int, b: int)
    requires
        b > 0,
        0 <= pos <= len < pos + b,
        pos % b == 0,
    ensures
        len - len % b == pos,
{
    vstd::arithmetic::div_mod::lemma_fundamental_div_mod(pos, b);
    vstd::arithmetic::div_mod::lemma_fundamental_div_mod(len, b);
    vstd::arithmetic::div_mod::lemma_mod_bound(len, b);
    assert(len / b == pos / b) by (nonlinear_arith)
        requires
            len == b * (len / b) + len % b,
            pos == b * (pos / b),
            0 <= len % b < b,
            pos <= len < pos + b,
            b > 0,
    ;
}

/// A half-open range `[start, end)` of flash locations of one block size.
#[derive(Debug)]
pub struct Range {
    pub start: Location,
    pub end: Location,
}

impl Range {
    /// Both ends share a block size and the range does not run backwards.
    pub open spec fn wf(self) -> bool {
        &&& self.start.block_size() == self.end.block_size()
        &&& self.start.offset() <= self.end.offset()
    }

    pub open spec fn block_size(self) -> Size {
        self.start.block_size()
    }

    /// The number of bytes covered.
    pub open spec fn spec_size(self) -> int {
        self.end.offset() - self.start.offset()
    }

    /// Whether byte address `p` lies in the range.
    pub open spec fn contains(self, p: int) -> bool {
        self.start.offset() <= p < self.end.offset()
    }

    /// No byte lies in both ranges.
    pub open spec fn disjoint(self, other: Range) -> bool {
        forall|p: int| !(#[trigger] self.contains(p) && #[trigger] other.contains(p))
    }

    /// A prefix of `size` bytes, rounded up to whole blocks, fits in the range.
    pub open spec fn fits(self, size: usize) -> bool {
        self.start.offset() + round_up(size as int, self.start.block_bytes()) <= self.end.offset()
    }

    /// What splitting `size` bytes (rounded up) off the front of `before` yields:
    /// the prefix that is handed out, and the range that stays behind as `after`.
    pub open spec fn split_outcome(
        before: Range,
        size: usize,
        prefix: Option<Range>,
        after: Range,
    ) -> bool {
        if before.fits(size) {
            &&& prefix == Some(Range { start: before.start, end: after.start })
            &&& after.start.block_size() == before.block_size()
            &&& after.start.offset() == before.start.offset() + round_up(
                size as int,
                before.start.block_bytes(),
            )
            &&& after.end == before.end
        } else {
            &&& prefix is None
            &&& after == before
        }
    }

    /// Creates a new range of flash locations covering between [start, end).
    pub fn new(start: Location, end: Location) -> (r: Self)
        requires
            start.block_size() == end.block_size(),
            start.offset() <= end.offset(),
        ensures
            r.start == start,
            r.end == end,
            r.wf(),
    {
        Range { start, end }
    }

    /// Splits the Range after at least SIZE Byte, if possible.
    /// Return the first part. Retain the second part.
    pub fn split_round_up(&mut self, size: usize) -> (r: Option<Self>)
        requires
            old(self).wf(),
        ensures
            final(self).wf(),
            Range::split_outcome(*old(self), size, r, *final(self)),
            r matches Some(p) ==> p.wf(),
    {
        proof {
            use_type_invariant(self.end);
        }
        let start = self.start;
        let end = match self.start.add_round_up(size) {
            Ok(end) => end,
            Err(_) => return None,
        };
        if end.addr > self.end.addr {
            return None;
        }
        *self = Range::new(end, self.end);
        Some(Range::new(start, end))
    }

    /// Returns the size of the range in bytes.
    pub fn size(&self) -> (r: usize)
        ensures
            r == (if self.start.offset() <= self.end.offset() {
                self.spec_size()
            } else {
                0
            }),
    {
        Location::diff(self.start, self.end) as usize
    }
}

/// Splitting keeps the total extent: the prefix handed out and the range left behind are
/// well formed, share no byte, and together cover exactly the bytes of the original range.
pub proof fn lemma_split_keeps_extent(before: Range, size: usize, prefix: Range, after: Range)
    requires
        before.wf(),
        Range::split_outcome(before, size, Some(prefix), after),
    ensures
        prefix.wf(),
        after.wf(),
        prefix.disjoint(after),
        forall|p: int| #[trigger]
            before.contains(p) <==> (prefix.contains(p) || after.contains(p)),
{
    block::lemma_round_up(size as int, before.start.block_bytes());
}

} // verus!
