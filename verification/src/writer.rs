use vstd::prelude::*;

use crate::common::{Error, ReservedMemEntry, Result};
use crate::internal::{align_buf_at, align_skip, buf_address, HEADER_SIZE, RESERVED_MEM_ENTRY_SIZE};

verus! {

/// The eight bytes of `v` in big-endian order.
pub open spec fn be_u64_bytes(v: u64) -> Seq<u8> {
    seq![
        (v >> 56u64) as u8,
        (v >> 48u64) as u8,
        (v >> 40u64) as u8,
        (v >> 32u64) as u8,
        (v >> 24u64) as u8,
        (v >> 16u64) as u8,
        (v >> 8u64) as u8,
        v as u8,
    ]
}

/// The sixteen bytes of a reserved memory entry: address, then size, each big-endian.
pub open spec fn entry_bytes(address: u64, size: u64) -> Seq<u8> {
    be_u64_bytes(address) + be_u64_bytes(size)
}

/// `s` with the bytes from index `at` on replaced by `piece`, its length kept.
pub open spec fn splice(s: Seq<u8>, at: int, piece: Seq<u8>) -> Seq<u8> {
    s.take(at) + piece + s.skip(at + piece.len())
}

/// Writes `v` big-endian into the eight bytes of `buf` from index `at`.
fn put_be_u64(buf: &mut [u8], at: usize, v: u64)
    requires
        at + 8 <= old(buf)@.len(),
    ensures
        final(buf)@ == splice(old(buf)@, at as int, be_u64_bytes(v)),
    no_unwind
{
    buf[at] = (v >> 56u64) as u8;
    buf[at + 1] = (v >> 48u64) as u8;
    buf[at + 2] = (v >> 40u64) as u8;
    buf[at + 3] = (v >> 32u64) as u8;
    buf[at + 4] = (v >> 24u64) as u8;
    buf[at + 5] = (v >> 16u64) as u8;
    buf[at + 6] = (v >> 8u64) as u8;
    buf[at + 7] = v as u8;
    assert(buf@ =~= splice(old(buf)@, at as int, be_u64_bytes(v)));
}

/// The alignment that the reserved memory block starts at: that of an entry.
pub open spec fn entry_align() -> int {
    align_of::<ReservedMemEntry>() as int
}

/// The alignment of an entry, at run time.
fn entry_align_exec() -> (align: usize)
    ensures
        align == entry_align(),
        align > 0,
{
    vstd::layout::layout_for_type_is_valid::<ReservedMemEntry>();
    core::mem::align_of::<ReservedMemEntry>()
}

/// What `ReservedMem::from_buf` gives for a buffer holding `before`, where
/// its first `k` bytes are skipped to reach the alignment.
pub open spec fn reserved_mem_from(before: Seq<u8>, k: int, res: Result<ReservedMem>) -> bool {
    &&& 0 <= k < entry_align()
    &&& res is Err <==> before.len() < k + HEADER_SIZE
    &&& res matches Ok(r) ==> r.bytes() == before.skip(k)
}

/// What `Writer::from_buf` gives for a buffer holding `before`, where its first
/// `k` bytes are skipped to reach the alignment.
pub open spec fn writer_from(before: Seq<u8>, k: int, res: Result<Writer>) -> bool {
    &&& 0 <= k < entry_align()
    &&& res is Err <==> before.len() < k + HEADER_SIZE + RESERVED_MEM_ENTRY_SIZE
    &&& res matches Ok(w) ==> w.bytes() == splice(
        before.skip(k),
        HEADER_SIZE as int,
        entry_bytes(0, 0),
    )
}

/// With the next entry at `pos`, `pos` past the header by whole entries and
/// within `len` bytes: one more entry fits exactly when fewer entries than fit
/// in all have been added.
proof fn lemma_entry_room(len: int, pos: int)
    requires
        HEADER_SIZE <= pos <= len,
        (pos - HEADER_SIZE) % (RESERVED_MEM_ENTRY_SIZE as int) == 0,
    ensures
        (pos + RESERVED_MEM_ENTRY_SIZE <= len) <==> (pos - HEADER_SIZE) / (
        RESERVED_MEM_ENTRY_SIZE as int) < (len - HEADER_SIZE) / (RESERVED_MEM_ENTRY_SIZE as int),
        (pos + RESERVED_MEM_ENTRY_SIZE - HEADER_SIZE) / (RESERVED_MEM_ENTRY_SIZE as int) == (pos
            - HEADER_SIZE) / (RESERVED_MEM_ENTRY_SIZE as int) + 1,
        (pos + RESERVED_MEM_ENTRY_SIZE - HEADER_SIZE) % (RESERVED_MEM_ENTRY_SIZE as int) == 0,
{
}

/// Reserved memory block.
#[derive(Debug)]
pub struct ReservedMem<'a> {
    buf: &'a mut [u8],
    offset: usize,
}

impl<'a> ReservedMem<'a> {
    #[verifier::type_invariant]
    spec fn inv(&self) -> bool {
        &&& HEADER_SIZE <= self.offset <= self.buf@.len()
        &&& (self.offset - HEADER_SIZE) % (RESERVED_MEM_ENTRY_SIZE as int) == 0
    }

    /// The bytes of the block, from the start of the header on.
    pub closed spec fn bytes(&self) -> Seq<u8> {
        self.buf@
    }

    /// Where the next entry goes.
    pub closed spec fn pos(&self) -> nat {
        self.offset as nat
    }

    /// Entries follow the header back to back, and the next one goes inside
    /// the block or at its end.
    pub open spec fn well_placed(&self) -> bool {
        &&& HEADER_SIZE <= self.pos() <= self.bytes().len()
        &&& (self.pos() - HEADER_SIZE) % (RESERVED_MEM_ENTRY_SIZE as int) == 0
    }

    /// How many entries have been added.
    pub open spec fn entries(&self) -> int {
        (self.pos() - HEADER_SIZE) / (RESERVED_MEM_ENTRY_SIZE as int)
    }

    /// How many entries fit after the header.
    pub open spec fn capacity(&self) -> int {
        (self.bytes().len() - HEADER_SIZE) / (RESERVED_MEM_ENTRY_SIZE as int)
    }

    /// Creates a reserved memory block from a buffer that starts at address
    /// `addr`: the block starts at the first multiple of the alignment, and the
    /// first entry goes after the header.
    pub fn from_buf_at(buf: &'a mut [u8], addr: usize) -> (res: Result<ReservedMem<'a>>)
        ensures
            res is Err <==> old(buf)@.len() < align_skip(addr as int, entry_align()) + HEADER_SIZE,
            res matches Err(e) ==> e == Error::BufferTooSmall && final(buf)@ == old(buf)@,
            res matches Ok(r) ==> {
                &&& r.bytes() == old(buf)@.skip(align_skip(addr as int, entry_align()))
                &&& r.pos() == HEADER_SIZE
                &&& r.well_placed()
                &&& final(buf)@.take(align_skip(addr as int, entry_align())) == old(buf)@.take(
                    align_skip(addr as int, entry_align()),
                )
            },
    {
        let align: usize = entry_align_exec();
        let aligned = match align_buf_at(buf, align, addr) {
            Ok(aligned) => aligned,
            Err(e) => return Err(e),
        };
        if aligned.len() < HEADER_SIZE {
            return Err(Error::BufferTooSmall);
        }
        let ghost k = align_skip(addr as int, entry_align());
        assert((old(buf)@.take(k) + final(aligned)@).take(k) =~= old(buf)@.take(k));
        Ok(ReservedMem { buf: aligned, offset: HEADER_SIZE })
    }

    /// Creates a new reserved memory block from a given buffer. It starts at
    /// the first byte of `buf` that is suitably aligned, which depends on where
    /// `buf` lies in memory: fewer than the alignment are skipped.
    pub fn from_buf(buf: &'a mut [u8]) -> (res: Result<ReservedMem<'a>>)
        ensures
            exists|k: int| reserved_mem_from(old(buf)@, k, res),
            old(buf)@.len() < HEADER_SIZE ==> res is Err,
            old(buf)@.len() >= HEADER_SIZE + entry_align() - 1 ==> res is Ok,
            res matches Err(e) ==> e == Error::BufferTooSmall && final(buf)@ == old(buf)@,
            res matches Ok(r) ==> r.pos() == HEADER_SIZE && r.well_placed(),
    {
        let addr: usize = buf_address(buf);
        let res = ReservedMem::from_buf_at(buf, addr);
        let ghost k = align_skip(addr as int, entry_align());
        vstd::layout::layout_for_type_is_valid::<ReservedMemEntry>();
        proof {
            crate::laws::law_align_skip(addr as int, entry_align());
        }
        assert(reserved_mem_from(old(buf)@, k, res));
        res
    }

    /// Adds a new reserved memory entry after those already added.
    pub fn add_entry(&mut self, address: u64, size: u64) -> (res: Result<()>)
        ensures
            res is Err <==> old(self).bytes().len() < old(self).pos() + RESERVED_MEM_ENTRY_SIZE,
            res matches Err(e) ==> e == Error::BufferTooSmall && final(self).bytes() == old(
                self,
            ).bytes() && final(self).pos() == old(self).pos(),
            res is Ok ==> final(self).bytes() == splice(
                old(self).bytes(),
                old(self).pos() as int,
                entry_bytes(address, size),
            ) && final(self).pos() == old(self).pos() + RESERVED_MEM_ENTRY_SIZE,
            res is Ok <==> old(self).entries() < old(self).capacity(),
            res is Ok ==> final(self).entries() == old(self).entries() + 1,
            final(self).capacity() == old(self).capacity(),
            old(self).well_placed(),
            final(self).well_placed(),
    {
        proof {
            use_type_invariant(&*self);
            lemma_entry_room(self.buf@.len() as int, self.offset as int);
        }
        if self.buf.len() - self.offset < RESERVED_MEM_ENTRY_SIZE {
            return Err(Error::BufferTooSmall);
        }
        let ghost before = self.buf@;
        let at: usize = self.offset;
        put_be_u64(self.buf, at, address);
        put_be_u64(self.buf, at + 8, size);
        self.offset = at + RESERVED_MEM_ENTRY_SIZE;
        assert(self.buf@ =~= splice(before, at as int, entry_bytes(address, size)));
        proof {
            lemma_entry_room(self.buf@.len() as int, self.offset as int);
        }
        Ok(())
    }
}

/// Device tree blob writer.
#[derive(Debug)]
pub struct Writer<'a> {
    buf: &'a mut [u8],
    reserved_mem_offset: usize,
    struct_offset: usize,
    strings_offset: usize,
}

impl<'a> Writer<'a> {
    #[verifier::type_invariant]
    spec fn inv(&self) -> bool {
        &&& self.reserved_mem_offset <= self.struct_offset
        &&& self.struct_offset <= self.strings_offset
        &&& self.strings_offset <= self.buf@.len()
    }

    /// The bytes of the blob being written.
    pub closed spec fn bytes(&self) -> Seq<u8> {
        self.buf@
    }

    /// Where the reserved memory block ends.
    pub closed spec fn reserved_mem_end(&self) -> nat {
        self.reserved_mem_offset as nat
    }

    /// Where the structure block starts.
    pub closed spec fn struct_start(&self) -> nat {
        self.struct_offset as nat
    }

    /// Where the strings block starts.
    pub closed spec fn strings_start(&self) -> nat {
        self.strings_offset as nat
    }

    /// Creates a DTB writer from a buffer that starts at address `addr`: the
    /// reserved memory block starts at the first multiple of the alignment, and
    /// it is closed at once with an empty entry.
    pub fn from_buf_at(buf: &'a mut [u8], addr: usize) -> (res: Result<Writer<'a>>)
        ensures
            res is Err <==> old(buf)@.len() < align_skip(addr as int, entry_align()) + HEADER_SIZE
                + RESERVED_MEM_ENTRY_SIZE,
            res matches Err(e) ==> e == Error::BufferTooSmall && final(buf)@ == old(buf)@,
            res matches Ok(w) ==> {
                &&& w.bytes() == splice(
                    old(buf)@.skip(align_skip(addr as int, entry_align())),
                    HEADER_SIZE as int,
                    entry_bytes(0, 0),
                )
                &&& w.reserved_mem_end() == HEADER_SIZE + RESERVED_MEM_ENTRY_SIZE
                &&& w.struct_start() == HEADER_SIZE + RESERVED_MEM_ENTRY_SIZE
                &&& w.strings_start() == w.bytes().len()
            },
    {
        let align: usize = entry_align_exec();
        let off: usize = addr % align;
        let skip: usize = if off == 0 {
            0
        } else {
            align - off
        };
        if buf.len() < skip || buf.len() - skip < HEADER_SIZE + RESERVED_MEM_ENTRY_SIZE {
            return Err(Error::BufferTooSmall);
        }
        let reserved_mem = match ReservedMem::from_buf_at(buf, addr) {
            Ok(reserved_mem) => reserved_mem,
            Err(e) => return Err(e),
        };
        Writer::from_reserved_mem(reserved_mem)
    }

    /// Creates a DTB writer from a given buffer. The reserved memory block
    /// starts at the first byte of `buf` that is suitably aligned, which depends
    /// on where `buf` lies in memory: fewer than the alignment are skipped.
    pub fn from_buf(buf: &'a mut [u8]) -> (res: Result<Writer<'a>>)
        ensures
            exists|k: int| writer_from(old(buf)@, k, res),
            old(buf)@.len() < HEADER_SIZE + RESERVED_MEM_ENTRY_SIZE ==> res is Err,
            old(buf)@.len() >= HEADER_SIZE + RESERVED_MEM_ENTRY_SIZE + entry_align() - 1
                ==> res is Ok,
            res matches Err(e) ==> e == Error::BufferTooSmall && final(buf)@ == old(buf)@,
            res matches Ok(w) ==> w.reserved_mem_end() == HEADER_SIZE + RESERVED_MEM_ENTRY_SIZE
                && w.struct_start() == HEADER_SIZE + RESERVED_MEM_ENTRY_SIZE && w.strings_start()
                == w.bytes().len(),
    {
        let addr: usize = buf_address(buf);
        let res = Writer::from_buf_at(buf, addr);
        let ghost k = align_skip(addr as int, entry_align());
        vstd::layout::layout_for_type_is_valid::<ReservedMemEntry>();
        proof {
            crate::laws::law_align_skip(addr as int, entry_align());
        }
        assert(writer_from(old(buf)@, k, res));
        res
    }

    /// Creates a DTB writer from a given reserved memory block: the block is
    /// closed with an empty entry, and the structure block follows it.
    pub fn from_reserved_mem(reserved_mem: ReservedMem<'a>) -> (res: Result<Writer<'a>>)
        ensures
            res is Err <==> reserved_mem.bytes().len() < reserved_mem.pos()
                + RESERVED_MEM_ENTRY_SIZE,
            res matches Err(e) ==> e == Error::BufferTooSmall,
            res matches Ok(w) ==> {
                &&& w.bytes() == splice(
                    reserved_mem.bytes(),
                    reserved_mem.pos() as int,
                    entry_bytes(0, 0),
                )
                &&& w.reserved_mem_end() == reserved_mem.pos() + RESERVED_MEM_ENTRY_SIZE
                &&& w.struct_start() == w.reserved_mem_end()
                &&& w.strings_start() == w.bytes().len()
            },
    {
        let mut reserved_mem = reserved_mem;
        match reserved_mem.add_entry(0, 0) {
            Ok(()) => {},
            Err(e) => return Err(e),
        }
        proof {
            use_type_invariant(&reserved_mem);
        }
        let ReservedMem { buf, offset } = reserved_mem;
        let len: usize = buf.len();
        Ok(Writer { buf, reserved_mem_offset: offset, struct_offset: offset, strings_offset: len })
    }
}

} // verus!
