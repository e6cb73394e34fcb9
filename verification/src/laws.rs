use vstd::prelude::*;

use crate::internal::align_skip;
use crate::split::{join_bytes, lacks, lemma_join_split, lemma_split_cons, lemma_split_lacking, lemma_split_pieces_lack, split_bytes};
use crate::common::Error;
use crate::struct_item::{be_u32_list, node_name_bytes, unit_address_bytes, StructItem, STR_TERMINATOR, UNIT_ADDRESS_SEP};
use crate::writer::{be_u64_bytes, entry_bytes, splice};
use vstd::utf8::{encode_utf8, encode_utf8_valid_utf8, valid_utf8};

verus! {

/// A node name of the form `node-name@unit-address`, with one `@`, is read back
/// by `node_name` and `unit_address` as its two parts.
pub proof fn law_name_parts(node: Seq<u8>, address: Seq<u8>)
    requires
        lacks(node, UNIT_ADDRESS_SEP),
        lacks(address, UNIT_ADDRESS_SEP),
    ensures
        node_name_bytes(node + seq![UNIT_ADDRESS_SEP] + address) == node,
        unit_address_bytes(node + seq![UNIT_ADDRESS_SEP] + address) == address,
{
    lemma_split_cons(node, address, UNIT_ADDRESS_SEP);
    lemma_split_lacking(address, UNIT_ADDRESS_SEP);
}

/// A node name without `@` is all node name, and its unit address is empty.
pub proof fn law_name_without_address(name: Seq<u8>)
    requires
        lacks(name, UNIT_ADDRESS_SEP),
    ensures
        node_name_bytes(name) == name,
        unit_address_bytes(name) == Seq::<u8>::empty(),
{
    lemma_split_lacking(name, UNIT_ADDRESS_SEP);
}

/// The strings that `value_str_list` reads from a property hold no NUL, and
/// joined with a NUL between each two and one at the end they give back the
/// property's value.
pub proof fn law_str_list_rejoins(item: StructItem)
    requires
        item.value_str_bytes() is Ok,
    ensures
        item matches StructItem::Property { value, .. } && join_bytes(
            split_bytes(item.value_str_bytes()->Ok_0, STR_TERMINATOR),
            STR_TERMINATOR,
        ) + seq![STR_TERMINATOR] == value@,
        forall|i: int|
            0 <= i < split_bytes(item.value_str_bytes()->Ok_0, STR_TERMINATOR).len() ==> lacks(
                #[trigger] split_bytes(item.value_str_bytes()->Ok_0, STR_TERMINATOR)[i],
                STR_TERMINATOR,
            ),
{
    let s = item.value_str_bytes()->Ok_0;
    lemma_join_split(s, STR_TERMINATOR);
    lemma_split_pieces_lack(s, STR_TERMINATOR);
    if let StructItem::Property { value, .. } = item {
        assert(s + seq![STR_TERMINATOR] =~= value@);
    }
}

/// Two reserved memory entries added one after the other lie back to back,
/// the first before the second, and no other byte changes.
pub proof fn law_entries_back_to_back(
    bytes: Seq<u8>,
    pos: int,
    address1: u64,
    size1: u64,
    address2: u64,
    size2: u64,
)
    requires
        0 <= pos,
        pos + 32 <= bytes.len(),
    ensures
        splice(splice(bytes, pos, entry_bytes(address1, size1)), pos + 16, entry_bytes(address2, size2))
            == splice(bytes, pos, entry_bytes(address1, size1) + entry_bytes(address2, size2)),
        splice(bytes, pos, entry_bytes(address1, size1)).len() == bytes.len(),
{
    let once = splice(bytes, pos, entry_bytes(address1, size1));
    assert(once.len() == bytes.len());
    assert(splice(once, pos + 16, entry_bytes(address2, size2)) =~= splice(
        bytes,
        pos,
        entry_bytes(address1, size1) + entry_bytes(address2, size2),
    ));
}

/// The bytes skipped for alignment are fewer than the alignment, and what
/// remains starts at a multiple of it.
pub proof fn law_align_skip(addr: int, align: int)
    requires
        align > 0,
        addr >= 0,
    ensures
        0 <= align_skip(addr, align) < align,
        (addr + align_skip(addr, align)) % align == 0,
{
    vstd::arithmetic::div_mod::lemma_fundamental_div_mod(addr, align);
    vstd::arithmetic::div_mod::lemma_fundamental_div_mod(addr + align_skip(addr, align), align);
    if addr % align != 0 {
        assert(addr + align_skip(addr, align) == (addr / align + 1) * align) by (nonlinear_arith)
            requires
                addr == align * (addr / align) + addr % align,
                align_skip(addr, align) == align - addr % align,
        ;
        vstd::arithmetic::div_mod::lemma_mod_multiples_basic(addr / align + 1, align);
    }
}

/// Aligning again what was just aligned skips nothing: at the address where
/// the aligned part starts, `align_buf_at` gives back the whole of it.
pub proof fn law_align_twice(addr: int, align: int)
    requires
        align > 0,
        addr >= 0,
    ensures
        align_skip(addr + align_skip(addr, align), align) == 0,
{
    law_align_skip(addr, align);
}

/// The number that the bytes `b` spell in base 256, most significant first.
pub open spec fn big_endian_value(b: Seq<u8>) -> int
    decreases b.len(),
{
    if b.len() == 0 {
        0
    } else {
        big_endian_value(b.drop_last()) * 256 + b.last() as int
    }
}

/// A property whose value is a string's UTF-8 bytes followed by one NUL is read
/// by `value_str` as that string.
pub proof fn law_value_str_reads_terminated_string(item: StructItem, text: Seq<char>)
    requires
        item matches StructItem::Property { value, .. } && value@ == encode_utf8(text) + seq![
            STR_TERMINATOR,
        ],
    ensures
        item.value_str_bytes() == Ok::<Seq<u8>, Error>(encode_utf8(text)),
{
    encode_utf8_valid_utf8(text);
    if let StructItem::Property { value, .. } = item {
        assert(value@.drop_last() =~= encode_utf8(text));
    }
}

/// `value_str` refuses exactly the values that are empty, do not end in NUL,
/// or are not UTF-8 before the NUL; every other property is read.
pub proof fn law_value_str_domain(item: StructItem)
    requires
        item is Property,
    ensures
        item.value_str_bytes() is Ok <==> (item matches StructItem::Property { value, .. }
            && value@.len() > 0 && value@.last() == STR_TERMINATOR && valid_utf8(
            value@.drop_last(),
        )),
        item.value_str_bytes() == Err::<Seq<u8>, Error>(Error::BadValueStr) <==> (
        item matches StructItem::Property { value, .. } && (value@.len() == 0 || value@.last()
            != STR_TERMINATOR)),
{
}

/// Each number that `value_u32_list` reads is the big-endian value of its four
/// bytes of the property value.
pub proof fn law_u32_list_values(v: Seq<u8>, i: int)
    requires
        0 <= i < v.len() / 4,
    ensures
        be_u32_list(v)[i] as int == big_endian_value(v.subrange(4 * i, 4 * i + 4)),
        be_u32_list(v).len() == v.len() / 4,
{
    let b = v.subrange(4 * i, 4 * i + 4);
    reveal_with_fuel(big_endian_value, 5);
    assert(b.drop_last().drop_last().drop_last().drop_last() =~= Seq::<u8>::empty());
    assert(b.drop_last().drop_last().drop_last().last() == v[4 * i]);
    assert(b.drop_last().drop_last().last() == v[4 * i + 1]);
    assert(b.drop_last().last() == v[4 * i + 2]);
    assert(b.last() == v[4 * i + 3]);
}

/// The eight bytes written for a number spell that number in big-endian order.
pub proof fn law_u64_bytes_value(x: u64)
    ensures
        be_u64_bytes(x).len() == 8,
        big_endian_value(be_u64_bytes(x)) == x,
{
    let b = be_u64_bytes(x);
    reveal_with_fuel(big_endian_value, 9);
    assert(b.take(0) =~= Seq::<u8>::empty());
    assert(b.take(1) =~= b.take(0).push(b[0]));
    assert(b.take(2) =~= b.take(1).push(b[1]));
    assert(b.take(3) =~= b.take(2).push(b[2]));
    assert(b.take(4) =~= b.take(3).push(b[3]));
    assert(b.take(5) =~= b.take(4).push(b[4]));
    assert(b.take(6) =~= b.take(5).push(b[5]));
    assert(b.take(7) =~= b.take(6).push(b[6]));
    assert(b.take(8) =~= b.take(7).push(b[7]));
    assert(b.take(8) =~= b);
    assert(big_endian_value(b.take(1)) == b[0] as int);
    assert(big_endian_value(b.take(2)) == big_endian_value(b.take(1)) * 256 + b[1] as int);
    assert(big_endian_value(b.take(3)) == big_endian_value(b.take(2)) * 256 + b[2] as int);
    assert(big_endian_value(b.take(4)) == big_endian_value(b.take(3)) * 256 + b[3] as int);
    assert(big_endian_value(b.take(5)) == big_endian_value(b.take(4)) * 256 + b[4] as int);
    assert(big_endian_value(b.take(6)) == big_endian_value(b.take(5)) * 256 + b[5] as int);
    assert(big_endian_value(b.take(7)) == big_endian_value(b.take(6)) * 256 + b[6] as int);
    assert(big_endian_value(b.take(8)) == big_endian_value(b.take(7)) * 256 + b[7] as int);
    assert((((((((((x >> 56u64) as u8) as int * 256 + ((x >> 48u64) as u8) as int) * 256 + ((x
        >> 40u64) as u8) as int) * 256 + ((x >> 32u64) as u8) as int) * 256 + ((x >> 24u64) as u8)
        as int) * 256 + ((x >> 16u64) as u8) as int) * 256 + ((x >> 8u64) as u8) as int) * 256
        + (x as u8) as int) == x) by (bit_vector);
}

/// A reserved memory entry's bytes spell, big-endian, its address and then its size.
pub proof fn law_entry_values(address: u64, size: u64)
    ensures
        entry_bytes(address, size).len() == 16,
        big_endian_value(entry_bytes(address, size).subrange(0, 8)) == address,
        big_endian_value(entry_bytes(address, size).subrange(8, 16)) == size,
{
    law_u64_bytes_value(address);
    law_u64_bytes_value(size);
    assert(entry_bytes(address, size).subrange(0, 8) =~= be_u64_bytes(address));
    assert(entry_bytes(address, size).subrange(8, 16) =~= be_u64_bytes(size));
}

} // verus!
