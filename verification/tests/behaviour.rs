use std::mem::{align_of, size_of};

use dtb::internal::{align_buf, align_buf_at, Header, HEADER_SIZE, RESERVED_MEM_ENTRY_SIZE};
use dtb::{Error, ReservedMem, ReservedMemEntry, StructItem, Writer};

fn aligned(storage: &mut [u8], len: usize) -> &mut [u8] {
    let off = (8 - storage.as_ptr() as usize % 8) % 8;
    &mut storage[off..off + len]
}

#[test]
fn sizes_match_the_layout() {
    assert_eq!(HEADER_SIZE, size_of::<Header>());
    assert_eq!(RESERVED_MEM_ENTRY_SIZE, size_of::<ReservedMemEntry>());
}

#[test]
fn node_name_and_unit_address_split_at_at_signs() {
    let item = StructItem::BeginNode { name: "a@b@c" };
    assert_eq!(item.node_name().unwrap(), "a");
    assert_eq!(item.unit_address().unwrap(), "b");
    let item = StructItem::BeginNode { name: "@x" };
    assert_eq!(item.node_name().unwrap(), "");
    assert_eq!(item.unit_address().unwrap(), "x");
    let item = StructItem::BeginNode { name: "x@" };
    assert_eq!(item.node_name().unwrap(), "x");
    assert_eq!(item.unit_address().unwrap(), "");
    let item = StructItem::BeginNode { name: "cpu\u{e9}@1f" };
    assert_eq!(item.node_name().unwrap(), "cpu\u{e9}");
    assert_eq!(item.unit_address().unwrap(), "1f");
}

#[test]
fn name_parts_rejoin() {
    let item = StructItem::BeginNode { name: "memory@80000000" };
    let joined = format!("{}@{}", item.node_name().unwrap(), item.unit_address().unwrap());
    assert_eq!(joined, "memory@80000000");
}

#[test]
fn value_str_rejects_bad_utf8() {
    let item = StructItem::Property { name: "p", value: &[0xff, 0] };
    let expected = std::str::from_utf8(&[0xff]).unwrap_err();
    assert_eq!(item.value_str().unwrap_err(), Error::BadStrEncoding(expected));
    let item = StructItem::Property { name: "p", value: &[0] };
    assert_eq!(item.value_str().unwrap(), "");
    let item = StructItem::Property { name: "p", value: "a\0b\0".as_bytes() };
    assert_eq!(item.value_str().unwrap(), "a\0b");
}

#[test]
fn value_str_list_keeps_empty_strings() {
    let mut buf = [""; 4];
    let item = StructItem::Property { name: "p", value: "a\0\0b\0".as_bytes() };
    assert_eq!(item.value_str_list(&mut buf).unwrap(), &["a", "", "b"]);
    let mut buf = ["z"; 2];
    let item = StructItem::Property { name: "p", value: &[0] };
    assert_eq!(item.value_str_list(&mut buf).unwrap(), &[""]);
    assert_eq!(buf, ["", "z"]);
}

#[test]
fn value_str_list_fills_the_buffer_before_refusing() {
    let mut buf = ["z"; 2];
    let item = StructItem::Property { name: "p", value: "a\0b\0c\0".as_bytes() };
    assert_eq!(item.value_str_list(&mut buf).unwrap_err(), Error::BufferTooSmall);
    assert_eq!(buf, ["a", "b"]);
}

#[test]
fn str_list_rejoins_to_the_value() {
    let value = "compatible\0simple-bus\0".as_bytes();
    let mut buf = [""; 4];
    let item = StructItem::Property { name: "p", value };
    let parts = item.value_str_list(&mut buf).unwrap();
    let mut joined = parts.join("\0");
    joined.push('\0');
    assert_eq!(joined.as_bytes(), value);
}

#[test]
fn value_u32_list_reads_big_endian() {
    let mut buf = [7u32; 3];
    let item = StructItem::Property { name: "p", value: &[0x12, 0x34, 0x56, 0x78, 0xff, 0, 0, 1] };
    assert_eq!(item.value_u32_list(&mut buf).unwrap(), &[0x1234_5678, 0xff00_0001]);
    assert_eq!(buf[2], 7);
}

#[test]
fn align_buf_at_skips_to_the_alignment() {
    let mut storage = [1u8, 2, 3, 4, 5, 6, 7, 8, 9, 10];
    assert_eq!(align_buf_at(&mut storage, 8, 16).unwrap(), &[1, 2, 3, 4, 5, 6, 7, 8, 9, 10]);
    assert_eq!(align_buf_at(&mut storage, 8, 13).unwrap(), &[4, 5, 6, 7, 8, 9, 10]);
    assert_eq!(align_buf_at(&mut storage[..2], 8, 13).unwrap_err(), Error::BufferTooSmall);
    assert_eq!(align_buf_at(&mut storage[..3], 8, 13).unwrap(), &[] as &[u8]);
}

#[test]
fn align_buf_aligns_for_the_type() {
    let mut storage = vec![0u8; 40];
    let buf = align_buf::<u64>(&mut storage[3..]).unwrap();
    assert_eq!(buf.as_ptr() as usize % align_of::<u64>(), 0);
    assert!(buf.len() > 37 - align_of::<u64>());
}

#[test]
fn reserved_mem_at_an_address() {
    let skip = align_of::<ReservedMemEntry>() - 1;
    let mut storage = vec![0u8; 40 + skip];
    assert_eq!(
        ReservedMem::from_buf_at(&mut storage[..39 + skip], 1).unwrap_err(),
        Error::BufferTooSmall
    );
    assert!(ReservedMem::from_buf_at(&mut storage, 1).is_ok());
    assert!(ReservedMem::from_buf_at(&mut storage[..40], 0).is_ok());
    assert_eq!(ReservedMem::from_buf_at(&mut storage[..39], 0).unwrap_err(), Error::BufferTooSmall);
}

#[test]
fn add_entry_writes_big_endian_entries_back_to_back() {
    let mut storage = vec![0xaau8; 80];
    {
        let mut reserved_mem = ReservedMem::from_buf_at(&mut storage, 0).unwrap();
        reserved_mem.add_entry(0x0102_0304_0506_0708, 0x1112_1314_1516_1718).unwrap();
        reserved_mem.add_entry(0x21, 0x22).unwrap();
        assert_eq!(reserved_mem.add_entry(1, 1).unwrap_err(), Error::BufferTooSmall);
    }
    assert!(storage[..40].iter().all(|b| *b == 0xaa));
    assert_eq!(&storage[40..48], &[1, 2, 3, 4, 5, 6, 7, 8]);
    assert_eq!(&storage[48..56], &[0x11, 0x12, 0x13, 0x14, 0x15, 0x16, 0x17, 0x18]);
    assert_eq!(&storage[56..64], &[0, 0, 0, 0, 0, 0, 0, 0x21]);
    assert_eq!(&storage[64..72], &[0, 0, 0, 0, 0, 0, 0, 0x22]);
    assert!(storage[72..].iter().all(|b| *b == 0xaa));
}

#[test]
fn writer_closes_the_reserved_block_with_an_empty_entry() {
    let mut storage = vec![0xaau8; 64 + 8];
    {
        let buf = aligned(&mut storage, 64);
        let mut reserved_mem = ReservedMem::from_buf(buf).unwrap();
        reserved_mem.add_entry(5, 6).unwrap();
        assert_eq!(Writer::from_reserved_mem(reserved_mem).unwrap_err(), Error::BufferTooSmall);
    }
    let mut storage = vec![0xaau8; 72 + 8];
    let off = (8 - storage.as_ptr() as usize % 8) % 8;
    {
        let buf = aligned(&mut storage, 72);
        let mut reserved_mem = ReservedMem::from_buf(buf).unwrap();
        reserved_mem.add_entry(5, 6).unwrap();
        assert!(Writer::from_reserved_mem(reserved_mem).is_ok());
    }
    assert_eq!(&storage[off + 56..off + 72], &[0u8; 16]);
    assert_eq!(storage[off + 63], 0);
    assert_eq!(storage[off + 47], 5);
    assert_eq!(storage[off + 55], 6);
}

#[test]
fn writer_from_buf_needs_room_for_the_closing_entry() {
    let mut storage = vec![0u8; 56 + 8];
    let buf = aligned(&mut storage, 56);
    assert!(Writer::from_buf(buf).is_ok());
    let buf = aligned(&mut storage, 55);
    assert_eq!(Writer::from_buf(buf).unwrap_err(), Error::BufferTooSmall);
}

#[test]
fn align_twice_skips_nothing_the_second_time() {
    let mut storage = [1u8, 2, 3, 4, 5, 6, 7, 8, 9, 10];
    let first = align_buf_at(&mut storage, 8, 13).unwrap();
    assert_eq!(align_buf_at(first, 8, 16).unwrap(), &[4, 5, 6, 7, 8, 9, 10]);
}

#[test]
fn add_entry_succeeds_while_entries_fit() {
    for len in 40..100usize {
        let mut storage = vec![0u8; len];
        let mut reserved_mem = ReservedMem::from_buf_at(&mut storage, 0).unwrap();
        let mut added = 0;
        while reserved_mem.add_entry(added as u64, 1).is_ok() {
            added += 1;
        }
        assert_eq!(added, (len - 40) / 16);
        assert_eq!(reserved_mem.add_entry(0, 0).unwrap_err(), Error::BufferTooSmall);
    }
}

#[test]
fn writer_at_an_address() {
    let mut storage = vec![0xaau8; 59];
    assert_eq!(Writer::from_buf_at(&mut storage[..58], 5).unwrap_err(), Error::BufferTooSmall);
    assert!(storage.iter().all(|b| *b == 0xaa));
    assert!(Writer::from_buf_at(&mut storage, 8 * 9 + 5).is_ok());
    assert!(storage[..43].iter().all(|b| *b == 0xaa));
    assert_eq!(&storage[43..59], &[0u8; 16]);
}

#[test]
fn writer_from_buf_leaves_the_buffer_on_error() {
    let mut storage = vec![0xaau8; 50 + 8];
    let buf = aligned(&mut storage, 50);
    assert_eq!(Writer::from_buf(buf).unwrap_err(), Error::BufferTooSmall);
    assert!(storage.iter().all(|b| *b == 0xaa));
}
