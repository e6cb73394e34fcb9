use vstd::prelude::*;
use vstd::slice::slice_subrange;
use vstd::string::StringSliceAdditionalSpecFns;
use vstd::utf8::*;

use crate::common::{Error, Result};
use crate::split::{lacks, lemma_split_cons, lemma_split_lacking, lemma_split_nonempty, split_bytes};

verus! {

/// The separator between a node's name and its unit address.
pub const UNIT_ADDRESS_SEP: u8 = 0x40;

/// The terminator of a string in a property value, and the separator between
/// the strings of a string list.
pub const STR_TERMINATOR: u8 = 0;

/// Names the error that `core::str::from_utf8` reports for bytes that are not
/// UTF-8; it depends on the bytes alone.
pub uninterp spec fn utf8_error_of(bytes: Seq<u8>) -> core::str::Utf8Error;

/// `core::str::from_utf8`: the string whose UTF-8 encoding is `v` when `v` is
/// UTF-8, and an error otherwise. The error's content is left to its name.
#[verifier::external_body]
fn str_from_utf8<'a>(v: &'a [u8]) -> (res: core::result::Result<&'a str, core::str::Utf8Error>)
    ensures
        res is Ok <==> valid_utf8(v@),
        res matches Ok(s) ==> s.spec_bytes() == v@,
        res matches Err(e) ==> e == utf8_error_of(v@),
{
    core::str::from_utf8(v)
}

/// The bytes of a node's name before its first `@`.
pub open spec fn node_name_bytes(name: Seq<u8>) -> Seq<u8> {
    split_bytes(name, UNIT_ADDRESS_SEP)[0]
}

/// The bytes of a node's name between its first `@` and the next one (or the
/// end); empty where the name has no `@`.
pub open spec fn unit_address_bytes(name: Seq<u8>) -> Seq<u8> {
    let parts = split_bytes(name, UNIT_ADDRESS_SEP);
    if parts.len() > 1 {
        parts[1]
    } else {
        Seq::empty()
    }
}

/// The UTF-8 bytes of each string.
pub open spec fn str_bytes_of(parts: Seq<&str>) -> Seq<Seq<u8>> {
    parts.map_values(|p: &str| p.spec_bytes())
}

/// The big-endian 32-bit number in the four bytes of `v` from index `i`.
pub open spec fn be_u32_at(v: Seq<u8>, i: int) -> u32 {
    (v[i] as int * 0x100_0000 + v[i + 1] as int * 0x1_0000 + v[i + 2] as int * 0x100
        + v[i + 3] as int) as u32
}

/// The big-endian 32-bit numbers that `v` holds, four bytes each.
pub open spec fn be_u32_list(v: Seq<u8>) -> Seq<u32> {
    Seq::new(v.len() / 4, |i: int| be_u32_at(v, 4 * i))
}

/// Splits `s` at its first `sep` byte: the part before it, and the part after
/// it where there is one.
fn split_at_first<'a>(s: &'a str, sep: u8) -> (res: (&'a str, Option<&'a str>))
    requires
        sep < 0x80,
    ensures
        lacks(res.0.spec_bytes(), sep),
        res.1 is None ==> res.0.spec_bytes() == s.spec_bytes(),
        res.1 matches Some(rest) ==> s.spec_bytes() == res.0.spec_bytes() + seq![sep]
            + rest.spec_bytes(),
{
    let bytes = s.as_bytes();
    let n: usize = bytes.len();
    let mut i: usize = 0;
    while i < n && bytes[i] != sep
        invariant
            i <= n,
            n == bytes@.len(),
            forall|j: int| 0 <= j < i ==> bytes@[j] != sep,
        decreases n - i,
    {
        i += 1;
    }
    proof {
        encode_utf8_valid_utf8(s@);
        if i == n {
            is_char_boundary_start_end_of_seq(bytes@);
        } else {
            is_char_boundary_iff_is_leading_byte(bytes@, i as int);
        }
    }
    let (head, tail) = s.split_at(i);
    assert(head.spec_bytes() =~= bytes@.take(i as int));
    if i == n {
        assert(bytes@.take(i as int) =~= bytes@);
        return (head, None);
    }
    let ghost tb = tail.spec_bytes();
    proof {
        encode_utf8_valid_utf8(tail@);
        assert(tb[0] == sep);
        reveal_with_fuel(is_char_boundary, 2);
        assert(is_char_boundary(tb, 1));
    }
    let (_, rest) = tail.split_at(1);
    assert(bytes@ =~= head.spec_bytes() + seq![sep] + rest.spec_bytes());
    (head, Some(rest))
}

/// One item of the structure block of a device tree.
#[derive(Debug, PartialEq)]
pub enum StructItem<'a> {
    BeginNode { name: &'a str },
    Property { name: &'a str, value: &'a [u8] },
    EndNode,
}

impl<'a> StructItem<'a> {
    /// What `value_str` gives: the string's bytes, or the error.
    pub open spec fn value_str_bytes(&self) -> core::result::Result<Seq<u8>, Error> {
        match *self {
            StructItem::Property { value, .. } => if value@.len() == 0 || value@.last() != 0 {
                Err(Error::BadValueStr)
            } else if valid_utf8(value@.drop_last()) {
                Ok(value@.drop_last())
            } else {
                Err(Error::BadStrEncoding(utf8_error_of(value@.drop_last())))
            },
            _ => Err(Error::BadStructItemType),
        }
    }

    pub fn is_begin_node(&self) -> (res: bool)
        ensures
            res == (*self is BeginNode),
    {
        match self {
            StructItem::BeginNode { .. } => true,
            _ => false,
        }
    }

    pub fn is_property(&self) -> (res: bool)
        ensures
            res == (*self is Property),
    {
        match self {
            StructItem::Property { .. } => true,
            _ => false,
        }
    }

    /// The name of a node or of a property.
    pub fn name(&self) -> (res: Result<&'a str>)
        ensures
            res == match *self {
                StructItem::BeginNode { name } => Ok::<&str, Error>(name),
                StructItem::Property { name, .. } => Ok::<&str, Error>(name),
                StructItem::EndNode => Err::<&str, Error>(Error::BadStructItemType),
            },
    {
        match self {
            StructItem::BeginNode { name } => Ok(name),
            StructItem::Property { name, .. } => Ok(name),
            _ => Err(Error::BadStructItemType),
        }
    }

    /// The name of a node without its unit address.
    pub fn node_name(&self) -> (res: Result<&'a str>)
        ensures
            match *self {
                StructItem::BeginNode { name } => res matches Ok(r) && r.spec_bytes()
                    == node_name_bytes(name.spec_bytes()),
                _ => res == Err::<&str, Error>(Error::BadStructItemType),
            },
    {
        match self {
            StructItem::BeginNode { name } => {
                let (head, after) = split_at_first(name, UNIT_ADDRESS_SEP);
                proof {
                    match after {
                        None => lemma_split_lacking(name.spec_bytes(), UNIT_ADDRESS_SEP),
                        Some(rest) => lemma_split_cons(
                            head.spec_bytes(),
                            rest.spec_bytes(),
                            UNIT_ADDRESS_SEP,
                        ),
                    }
                }
                Ok(head)
            },
            _ => Err(Error::BadStructItemType),
        }
    }

    /// The unit address of a node: what follows the first `@` of its name,
    /// up to the next `@`; empty where the name has no `@`.
    pub fn unit_address(&self) -> (res: Result<&'a str>)
        ensures
            match *self {
                StructItem::BeginNode { name } => res matches Ok(r) && r.spec_bytes()
                    == unit_address_bytes(name.spec_bytes()),
                _ => res == Err::<&str, Error>(Error::BadStructItemType),
            },
    {
        match self {
            StructItem::BeginNode { name } => {
                let (head, after) = split_at_first(name, UNIT_ADDRESS_SEP);
                match after {
                    None => {
                        proof {
                            lemma_split_lacking(name.spec_bytes(), UNIT_ADDRESS_SEP);
                            reveal_strlit("");
                        }
                        Ok("")
                    },
                    Some(rest) => {
                        let (addr, after2) = split_at_first(rest, UNIT_ADDRESS_SEP);
                        proof {
                            lemma_split_cons(head.spec_bytes(), rest.spec_bytes(), UNIT_ADDRESS_SEP);
                            lemma_split_nonempty(rest.spec_bytes(), UNIT_ADDRESS_SEP);
                            match after2 {
                                None => lemma_split_lacking(rest.spec_bytes(), UNIT_ADDRESS_SEP),
                                Some(rest2) => lemma_split_cons(
                                    addr.spec_bytes(),
                                    rest2.spec_bytes(),
                                    UNIT_ADDRESS_SEP,
                                ),
                            }
                        }
                        Ok(addr)
                    },
                }
            },
            _ => Err(Error::BadStructItemType),
        }
    }

    /// The raw value of a property.
    pub fn value(&self) -> (res: Result<&'a [u8]>)
        ensures
            res == match *self {
                StructItem::Property { value, .. } => Ok::<&[u8], Error>(value),
                _ => Err::<&[u8], Error>(Error::BadStructItemType),
            },
    {
        match self {
            StructItem::Property { value, .. } => Ok(value),
            _ => Err(Error::BadStructItemType),
        }
    }

    /// The value of a property as a string: its bytes up to the terminating
    /// NUL, which must be the last byte, read as UTF-8.
    pub fn value_str(&self) -> (res: Result<&'a str>)
        ensures
            res is Ok <==> self.value_str_bytes() is Ok,
            res matches Ok(s) ==> self.value_str_bytes() == Ok::<Seq<u8>, Error>(s.spec_bytes()),
            res matches Err(e) ==> self.value_str_bytes() == Err::<Seq<u8>, Error>(e),
    {
        let value = match self.value() {
            Ok(value) => value,
            Err(e) => return Err(e),
        };
        let len: usize = value.len();
        if len == 0 || value[len - 1] != STR_TERMINATOR {
            return Err(Error::BadValueStr);
        }
        assert(value@.drop_last() =~= value@.subrange(0, len - 1));
        match str_from_utf8(slice_subrange(value, 0, len - 1)) {
            Ok(value_str) => Ok(value_str),
            Err(err) => Err(Error::BadStrEncoding(err)),
        }
    }
    /// The value of a property as a list of strings: the string of `value_str`
    /// split at each NUL. The strings go into `buf` from its start; the result
    /// is the filled part of `buf`. Where `buf` has room for fewer strings than
    /// the list holds, `buf` is filled and `BufferTooSmall` is returned.
    pub fn value_str_list<'b>(&self, buf: &'b mut [&'a str]) -> (res: Result<&'b [&'a str]>)
        ensures
            match self.value_str_bytes() {
                Err(e) => res == Err::<&[&str], Error>(e) && final(buf)@ == old(buf)@,
                Ok(s) => {
                    let parts = split_bytes(s, STR_TERMINATOR);
                    if parts.len() > old(buf)@.len() {
                        &&& res == Err::<&[&str], Error>(Error::BufferTooSmall)
                        &&& final(buf)@.len() == old(buf)@.len()
                        &&& str_bytes_of(final(buf)@) == parts.take(old(buf)@.len() as int)
                    } else {
                        &&& res matches Ok(r)
                        &&& str_bytes_of(r@) == parts
                        &&& final(buf)@ == r@ + old(buf)@.skip(parts.len() as int)
                    }
                },
            },
    {
        let s = match self.value_str() {
            Ok(s) => s,
            Err(e) => return Err(e),
        };
        let ghost parts = split_bytes(s.spec_bytes(), STR_TERMINATOR);
        let mut rest: &'a str = s;
        let mut i: usize = 0;
        proof {
            assert(str_bytes_of(buf@.take(0)) =~= Seq::<Seq<u8>>::empty());
            assert(parts =~= str_bytes_of(buf@.take(0)) + split_bytes(rest.spec_bytes(), STR_TERMINATOR));
        }
        loop
            invariant
                i <= buf@.len(),
                buf@.len() == old(buf)@.len(),
                parts == split_bytes(s.spec_bytes(), STR_TERMINATOR),
                self.value_str_bytes() == Ok::<Seq<u8>, Error>(s.spec_bytes()),
                parts == str_bytes_of(buf@.take(i as int)) + split_bytes(rest.spec_bytes(), STR_TERMINATOR),
                forall|k: int| i <= k < buf@.len() ==> buf@[k] == old(buf)@[k],
            decreases rest.spec_bytes().len(),
        {
            let (part, next) = split_at_first(rest, STR_TERMINATOR);
            let ghost piece_rest = split_bytes(rest.spec_bytes(), STR_TERMINATOR);
            proof {
                lemma_split_nonempty(rest.spec_bytes(), STR_TERMINATOR);
                match next {
                    None => lemma_split_lacking(rest.spec_bytes(), STR_TERMINATOR),
                    Some(r) => lemma_split_cons(part.spec_bytes(), r.spec_bytes(), STR_TERMINATOR),
                }
            }
            if i >= buf.len() {
                assert(buf@.take(i as int) =~= buf@);
                assert(parts.take(buf@.len() as int) =~= str_bytes_of(buf@));
                return Err(Error::BufferTooSmall);
            }
            let ghost before = buf@;
            buf[i] = part;
            i += 1;
            proof {
                assert(buf@.take(i as int) =~= before.take(i - 1).push(part));
                assert(str_bytes_of(buf@.take(i as int)) =~= str_bytes_of(before.take(i - 1)).push(
                    part.spec_bytes(),
                ));
            }
            match next {
                None => {
                    proof {
                        assert(parts =~= str_bytes_of(buf@.take(i as int)));
                        assert(buf@ =~= buf@.take(i as int) + old(buf)@.skip(i as int));
                        assert(parts.len() == i);
                    }
                    let filled: &'b [&'a str] = buf;
                    return Ok(slice_subrange(filled, 0, i));
                },
                Some(r) => {
                    assert(parts =~= str_bytes_of(buf@.take(i as int)) + split_bytes(
                        r.spec_bytes(),
                        STR_TERMINATOR,
                    ));
                    rest = r;
                },
            }
        }
    }

    /// The value of a property as a list of big-endian 32-bit numbers. They go
    /// into `buf` from its start; the result is the filled part of `buf`.
    pub fn value_u32_list<'b>(&self, buf: &'b mut [u32]) -> (res: Result<&'b [u32]>)
        ensures
            match *self {
                StructItem::Property { value, .. } => if value@.len() % 4 != 0 {
                    res == Err::<&[u32], Error>(Error::BadU32List) && final(buf)@ == old(buf)@
                } else if old(buf)@.len() < value@.len() / 4 {
                    res == Err::<&[u32], Error>(Error::BufferTooSmall) && final(buf)@ == old(buf)@
                } else {
                    &&& res matches Ok(r)
                    &&& r@ == be_u32_list(value@)
                    &&& final(buf)@ == r@ + old(buf)@.skip((value@.len() / 4) as int)
                },
                _ => res == Err::<&[u32], Error>(Error::BadStructItemType) && final(buf)@ == old(buf)@,
            },
    {
        let value = match self.value() {
            Ok(value) => value,
            Err(e) => return Err(e),
        };
        if value.len() % 4 != 0 {
            return Err(Error::BadU32List);
        }
        let len: usize = value.len() / 4;
        if buf.len() < len {
            return Err(Error::BufferTooSmall);
        }
        let mut i: usize = 0;
        let mut j: usize = 0;
        while i < len
            invariant
                i <= len,
                j == 4 * i,
                len == value@.len() / 4,
                value@.len() % 4 == 0,
                len <= buf@.len(),
                buf@.len() == old(buf)@.len(),
                forall|k: int| 0 <= k < i ==> buf@[k] == be_u32_at(value@, 4 * k),
                forall|k: int| i <= k < buf@.len() ==> buf@[k] == old(buf)@[k],
            decreases len - i,
        {
            let x: u32 = (value[j] as u32) * 0x100_0000 + (value[j + 1] as u32) * 0x1_0000
                + (value[j + 2] as u32) * 0x100 + value[j + 3] as u32;
            buf[i] = x;
            i += 1;
            j += 4;
        }
        proof {
            assert(buf@ =~= be_u32_list(value@) + old(buf)@.skip(len as int));
        }
        let filled: &'b [u32] = buf;
        let r = slice_subrange(filled, 0, len);
        assert(r@ =~= be_u32_list(value@));
        Ok(r)
    }
}


} // verus!
