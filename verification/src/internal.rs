use vstd::prelude::*;

use crate::common::{Error, Result};

verus! {

pub const DTB_MAGIC: u32 = 0xD00D_FEED;
pub const COMP_VERSION: u32 = 16;

pub const TOK_BEGIN_NODE: u32 = 1;
pub const TOK_END_NODE: u32 = 2;
pub const TOK_PROPERTY: u32 = 3;
pub const TOK_NOP: u32 = 4;
pub const TOK_END: u32 = 9;

/// The header that starts every device tree blob.
pub struct Header {
    pub magic: u32,
    pub total_size: u32,
    pub struct_offset: u32,
    pub strings_offset: u32,
    pub reserved_mem_offset: u32,
    pub version: u32,
    pub last_comp_version: u32,
    pub bsp_cpu_id: u32,
    pub strings_size: u32,
    pub struct_size: u32,
}

/// The descriptor that follows a property token in the structure block.
pub struct PropertyDesc {
    pub value_size: u32,
    pub name_offset: u32,
}

/// Size in bytes of the header: ten 32-bit fields.
pub const HEADER_SIZE: usize = 40;

/// Size in bytes of one reserved memory entry: two 64-bit fields.
pub const RESERVED_MEM_ENTRY_SIZE: usize = 16;

/// Address in memory of the first byte of `buf`, from `<[u8]>::as_ptr`.
/// Nothing is stated of it: where a buffer lies depends on the machine and the run.
#[verifier::external_body]
pub(crate) fn buf_address(buf: &[u8]) -> usize {
    buf.as_ptr() as usize
}

/// How many bytes must be skipped from address `addr` to reach the next
/// multiple of `align`.
pub open spec fn align_skip(addr: int, align: int) -> int {
    if addr % align == 0 {
        0
    } else {
        align - addr % align
    }
}

/// Drops the bytes at the front of `buf`, which starts at address `addr`, so
/// that what remains starts at a multiple of `align`.
pub fn align_buf_at<'a>(buf: &'a mut [u8], align: usize, addr: usize) -> (res: Result<&'a mut [u8]>)
    requires
        align > 0,
    ensures
        res is Err <==> old(buf)@.len() < align_skip(addr as int, align as int),
        res matches Err(e) ==> e == Error::BufferTooSmall && final(buf)@ == old(buf)@,
        res matches Ok(r) ==> r@ == old(buf)@.skip(align_skip(addr as int, align as int))
            && final(buf)@ == old(buf)@.take(align_skip(addr as int, align as int)) + final(r)@,
{
    let off: usize = addr % align;
    if off == 0 {
        assert(old(buf)@.skip(0) == old(buf)@);
        return Ok(buf);
    }
    let inc: usize = align - off;
    if buf.len() < inc {
        return Err(Error::BufferTooSmall);
    }
    let (_, rest) = buf.split_at_mut(inc);
    Ok(rest)
}

/// Drops the bytes at the front of `buf` so that what remains is aligned for a `T`.
/// How many bytes go depends on where `buf` lies in memory, which nothing here
/// states: fewer than the alignment of `T` in any case.
pub fn align_buf<'a, T>(buf: &'a mut [u8]) -> (res: Result<&'a mut [u8]>)
    ensures
        old(buf)@.len() + 1 >= align_of::<T>() ==> res is Ok,
        res matches Err(e) ==> e == Error::BufferTooSmall && final(buf)@ == old(buf)@,
        res matches Ok(r) ==> exists|k: int|
            0 <= k < align_of::<T>() && r@ == old(buf)@.skip(k)
                && final(buf)@ == old(buf)@.take(k) + final(r)@,
{
    vstd::layout::layout_for_type_is_valid::<T>();
    let addr: usize = buf_address(buf);
    align_buf_at(buf, core::mem::align_of::<T>(), addr)
}

} // verus!
