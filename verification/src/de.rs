//! Deserialisation from the BIN1 format.
//!
//! The deserializer reads from a byte slice at a position that, like a cursor's,
//! may lie past the end of the data: seeking never reads, and a read past the end
//! fails. Offsets stored in the file are relative to the data section, which starts
//! at byte 16.
use vstd::prelude::*;
use std::collections::HashMap;
use std::sync::Arc;
use crate::bytes::{be_value, le_value, read_u16_le, read_u32_be, read_u32_le, read_u64_le};
use crate::ser::{Aligned, SerializerView, TYPE_IDS_SEGMENT_TAG};
use crate::roundtrip::{lemma_header_reads_back, names_map};
use vstd::utf8::{decode_utf8, valid_utf8};

verus! {

broadcast use vstd::std_specs::hash::group_hash_axioms;

/// The standard library's error for bytes that are not valid UTF-8.
#[verifier::external_type_specification]
#[verifier::external_body]
pub struct ExUtf8Error(std::str::Utf8Error);

/// Failures of the underlying cursor.
#[derive(Debug, Clone, Copy, PartialEq, Eq)]
pub enum IoError {
    /// A read went past the end of the data.
    UnexpectedEof,
    /// A seek went to a negative position or past `u64::MAX`.
    InvalidSeek,
}

/// Errors while reading a BIN1 file.
#[derive(Debug)]
pub enum DeserializeError {
    /// The file does not start with `BIN1`.
    InvalidMagic,
    /// A cursor operation failed.
    Io(IoError),
    /// A string is not valid UTF-8.
    Utf8Error(std::str::Utf8Error),
    /// A string extends past the end of the data.
    StringTooLarge,
    /// A value of one type was expected where another was found.
    TypeMismatch { expected: String, found: String },
    /// A type ID refers to no type name.
    NoSuchTypeID(u64),
    /// A type name that no deserializer is registered for.
    UnknownType(String),
    /// A number that is not a value of the enum being read.
    InvalidEnumValue(i64),
    /// The elements of an array never reach its end pointer.
    UnterminatedArray,
}

/// Decodes `v` as UTF-8 (`std::str::from_utf8`), which succeeds exactly on valid
/// UTF-8 and then gives a string slice with the same bytes.
#[verifier::external_body]
pub(crate) fn str_from_utf8(v: &[u8]) -> (r: Result<&str, std::str::Utf8Error>)
    ensures
        r is Ok <==> valid_utf8(v@),
        r matches Ok(s) ==> s@ == decode_utf8(v@),
{
    std::str::from_utf8(v)
}

/// What a deserializer holds, as mathematical values.
#[verifier::ext_equal]
pub struct DeserializerView {
    /// The whole file.
    pub data: Seq<u8>,
    /// The cursor position.
    pub pos: u64,
    /// The type names read from the type IDs segment, by type ID.
    pub type_names: Map<u32, Seq<char>>,
}

/// The number of bytes that bring `pos - 16` to a multiple of `alignment`.
pub open spec fn de_padding(pos: u64, alignment: usize) -> usize {
    let rel = pos.wrapping_sub(16) as usize;
    ((alignment - rel % alignment) % (alignment as int)) as usize
}

/// The cursor position after a relative seek by `offset`, if it stays in range.
pub open spec fn seek_target(pos: u64, offset: i64) -> Option<u64> {
    if pos + offset > u64::MAX || pos + offset < 0 {
        None
    } else {
        Some((pos + offset) as u64)
    }
}

impl DeserializerView {
    /// Whether `n` bytes can be read at the cursor.
    pub open spec fn can_read(self, n: nat) -> bool {
        self.pos + n <= self.data.len()
    }

    /// The `n` bytes at the cursor.
    pub open spec fn bytes_at_cursor(self, n: nat) -> Seq<u8> {
        self.data.subrange(self.pos as int, self.pos + n)
    }

    /// This state with the cursor at `pos`.
    pub open spec fn at(self, pos: u64) -> DeserializerView {
        DeserializerView { pos, ..self }
    }

    /// This state after reading `n` bytes: past them, or at the end of the data if
    /// there are not so many.
    pub open spec fn after_read(self, n: nat) -> DeserializerView {
        if self.can_read(n) {
            self.at((self.pos + n) as u64)
        } else {
            self.at(self.data.len() as u64)
        }
    }

    /// Where a pointer at the cursor points: the cursor, aligned to 8 and past the
    /// pointer, moved to the offset that the pointer holds, in the data section.
    pub open spec fn pointee_state(self) -> DeserializerView {
        let p = self.after_align(8);
        p.after_read(8).at((le_value(p.bytes_at_cursor(8)) as u64).wrapping_add(16))
    }

    /// This state after aligning the cursor to `alignment`.
    pub open spec fn after_align(self, alignment: usize) -> DeserializerView {
        match seek_target(self.pos, de_padding(self.pos, alignment) as i64) {
            Some(p) => self.at(p),
            None => self,
        }
    }

    /// Whether aligning the cursor to `alignment` succeeds.
    pub open spec fn align_ok(self, alignment: usize) -> bool {
        seek_target(self.pos, de_padding(self.pos, alignment) as i64) is Some
    }
}

/// What reading a type ID gives.
pub enum TypeRead {
    Io(IoError),
    NoSuchTypeID(u64),
    Name(Seq<char>),
}

/// What reading a string gives.
pub enum ZStringRead {
    Io(IoError),
    TooLarge,
    InvalidUtf8,
    Text(Seq<char>),
}

impl DeserializerView {
    /// Reading a type ID: align to 8, read a `u64` ID and look up the name of
    /// its low 32 bits.
    pub open spec fn type_read(self) -> (DeserializerView, TypeRead) {
        if !self.align_ok(8) {
            (self, TypeRead::Io(IoError::InvalidSeek))
        } else {
            let a = self.after_align(8);
            if !a.can_read(8) {
                (a.after_read(8), TypeRead::Io(IoError::UnexpectedEof))
            } else {
                let id = le_value(a.bytes_at_cursor(8)) as u64;
                if a.type_names.contains_key(id as u32) {
                    (a.after_read(8), TypeRead::Name(a.type_names[id as u32]))
                } else {
                    (a.after_read(8), TypeRead::NoSuchTypeID(id))
                }
            }
        }
    }

    /// Reading a string: align to 8 and read its length (the top flag bits
    /// cleared), align to 8 and read the offset of its bytes in the data section,
    /// then decode those bytes as UTF-8.
    pub open spec fn zstring_read(self) -> (DeserializerView, ZStringRead) {
        if !self.align_ok(8) {
            (self, ZStringRead::Io(IoError::InvalidSeek))
        } else {
            let s1 = self.after_align(8);
            if !s1.can_read(4) {
                (s1.after_read(4), ZStringRead::Io(IoError::UnexpectedEof))
            } else {
                let len = (le_value(s1.bytes_at_cursor(4)) as u32) & 0xBFFFFFFF;
                let s2 = s1.after_read(4);
                if !s2.align_ok(8) {
                    (s2, ZStringRead::Io(IoError::InvalidSeek))
                } else {
                    let s3 = s2.after_align(8);
                    if !s3.can_read(8) {
                        (s3.after_read(8), ZStringRead::Io(IoError::UnexpectedEof))
                    } else {
                        let ptr = le_value(s3.bytes_at_cursor(8)) as u64;
                        let s4 = s3.after_read(8);
                        let start = (ptr as usize).wrapping_add(16);
                        if start + len > self.data.len() {
                            (s4, ZStringRead::TooLarge)
                        } else {
                            let bytes = self.data.subrange(start as int, start + len);
                            if valid_utf8(bytes) {
                                (s4, ZStringRead::Text(decode_utf8(bytes)))
                            } else {
                                (s4, ZStringRead::InvalidUtf8)
                            }
                        }
                    }
                }
            }
        }
    }
}

/// Why reading the header and the type IDs segment failed.
pub enum HeaderFailure {
    Io(IoError),
    InvalidMagic,
    StringTooLarge,
    InvalidUtf8,
}

/// Whether the error `e` is the failure `f`.
pub open spec fn failure_matches(e: DeserializeError, f: HeaderFailure) -> bool {
    match f {
        HeaderFailure::Io(k) => e matches DeserializeError::Io(k2) && k2 == k,
        HeaderFailure::InvalidMagic => e is InvalidMagic,
        HeaderFailure::StringTooLarge => e is StringTooLarge,
        HeaderFailure::InvalidUtf8 => e is Utf8Error,
    }
}

/// The magic bytes at the start of every BIN1 file.
pub open spec fn bin1_magic() -> Seq<u8> {
    seq![0x42u8, 0x49, 0x4E, 0x31]
}

impl DeserializerView {
    /// Moving the cursor by `offset`.
    pub open spec fn seek_by(self, offset: int) -> Result<
        DeserializerView,
        (DeserializerView, HeaderFailure),
    > {
        if 0 <= self.pos + offset <= u64::MAX {
            Ok(self.at((self.pos + offset) as u64))
        } else {
            Err((self, HeaderFailure::Io(IoError::InvalidSeek)))
        }
    }

    /// Reading `n` bytes.
    pub open spec fn read_n(self, n: nat) -> Result<
        (DeserializerView, Seq<u8>),
        (DeserializerView, HeaderFailure),
    > {
        if self.can_read(n) {
            Ok((self.after_read(n), self.bytes_at_cursor(n)))
        } else {
            Err((self.after_read(n), HeaderFailure::Io(IoError::UnexpectedEof)))
        }
    }

    /// Reading the fixed header: the magic, two skipped bytes, the segment count,
    /// a skipped byte, the big-endian data size and four skipped bytes. Gives the
    /// segment count and the data size.
    pub open spec fn header_prefix(self) -> Result<
        (DeserializerView, u8, u32),
        (DeserializerView, HeaderFailure),
    > {
        match self.read_n(4) {
            Err(e) => Err(e),
            Ok((v1, magic)) => if magic != bin1_magic() {
                Err((v1, HeaderFailure::InvalidMagic))
            } else {
                match v1.seek_by(2) {
                    Err(e) => Err(e),
                    Ok(v2) => match v2.read_n(1) {
                        Err(e) => Err(e),
                        Ok((v3, count)) => match v3.seek_by(1) {
                            Err(e) => Err(e),
                            Ok(v4) => match v4.read_n(4) {
                                Err(e) => Err(e),
                                Ok((v5, size)) => match v5.seek_by(4) {
                                    Err(e) => Err(e),
                                    Ok(v6) => Ok((v6, count[0], be_value(size) as u32)),
                                },
                            },
                        },
                    },
                }
            },
        }
    }

    /// Skipping up to `remaining` segments, each a tag, a size and a body, until
    /// the type IDs segment's tag. Gives whether that tag was found.
    pub open spec fn skip_segments(self, remaining: nat) -> Result<
        (DeserializerView, bool),
        (DeserializerView, HeaderFailure),
    >
        decreases remaining,
    {
        if remaining == 0 {
            Ok((self, false))
        } else {
            match self.read_n(4) {
                Err(e) => Err(e),
                Ok((v1, tag)) => if le_value(tag) == TYPE_IDS_SEGMENT_TAG {
                    Ok((v1, true))
                } else {
                    match v1.read_n(4) {
                        Err(e) => Err(e),
                        Ok((v2, size)) => match v2.seek_by(le_value(size) as int) {
                            Err(e) => Err(e),
                            Ok(v3) => v3.skip_segments((remaining - 1) as nat),
                        },
                    }
                },
            }
        }
    }

    /// Reading `remaining` type name entries, each padded to 4 from `start`: the
    /// type ID, four skipped bytes, the length of the name with its terminating zero,
    /// and the name, which is recorded for the type ID.
    pub open spec fn type_entries_read(self, start: u64, remaining: nat) -> Result<
        DeserializerView,
        (DeserializerView, HeaderFailure),
    >
        decreases remaining,
    {
        if remaining == 0 {
            Ok(self)
        } else {
            let rel = ((self.pos - start) as u64) as usize;
            match self.seek_by((4 - rel % 4) % 4) {
                Err(e) => Err(e),
                Ok(v1) => match v1.read_n(4) {
                    Err(e) => Err(e),
                    Ok((v2, id)) => match v2.seek_by(4) {
                        Err(e) => Err(e),
                        Ok(v3) => match v3.read_n(4) {
                            Err(e) => Err(e),
                            Ok((v4, len_bytes)) => {
                                let len = le_value(len_bytes);
                                let at = v4.pos as usize;
                                if len == 0 || at + len - 1 > self.data.len() {
                                    Err((v4, HeaderFailure::StringTooLarge))
                                } else {
                                    let bytes = self.data.subrange(at as int, at + len - 1);
                                    if !valid_utf8(bytes) {
                                        Err((v4, HeaderFailure::InvalidUtf8))
                                    } else {
                                        let v5 = DeserializerView {
                                            type_names: v4.type_names.insert(
                                                le_value(id) as u32,
                                                decode_utf8(bytes),
                                            ),
                                            ..v4
                                        };
                                        match v5.seek_by(len as int) {
                                            Err(e) => Err(e),
                                            Ok(v6) => v6.type_entries_read(
                                                start,
                                                (remaining - 1) as nat,
                                            ),
                                        }
                                    }
                                }
                            },
                        },
                    },
                },
            }
        }
    }

    /// Reading the type IDs segment from just after its tag: its size, the
    /// offsets of type IDs (skipped), and the type name entries.
    pub open spec fn type_ids_segment_read(self) -> Result<
        DeserializerView,
        (DeserializerView, HeaderFailure),
    > {
        match self.seek_by(4) {
            Err(e) => Err(e),
            Ok(v1) => match v1.read_n(4) {
                Err(e) => Err(e),
                Ok((v2, offsets_count)) => match v2.seek_by((le_value(offsets_count) * 4) as int) {
                    Err(e) => Err(e),
                    Ok(v3) => match v3.read_n(4) {
                        Err(e) => Err(e),
                        Ok((v4, count)) => v4.type_entries_read(v3.pos, le_value(count)),
                    },
                },
            },
        }
    }

    /// Reading the header, then the type names from the type IDs segment, if there
    /// is one, leaving the cursor at the start of the data section.
    pub open spec fn header_read(self) -> (DeserializerView, Option<HeaderFailure>) {
        match self.header_prefix() {
            Err((v, f)) => (v, Some(f)),
            Ok((v6, count, data_size)) => match v6.seek_by(data_size as int) {
                Err((v, f)) => (v, Some(f)),
                Ok(v7) => match v7.skip_segments(count as nat) {
                    Err((v, f)) => (v, Some(f)),
                    Ok((v8, found)) => {
                        let types = if found {
                            v8.type_ids_segment_read()
                        } else {
                            Ok(v8)
                        };
                        match types {
                            Err((v, f)) => (v, Some(f)),
                            Ok(v9) => (v9.at(v6.pos), None),
                        }
                    },
                },
            },
        }
    }
}

/// The data of a deserializer is a slice, so its length fits in a `u64`.
pub proof fn lemma_data_len_fits(de: &Bin1Deserializer)
    ensures
        de@.data.len() <= u64::MAX,
{
    assert(de.data@.len() == de.data.len());
}

/// Reading `a` bytes and then `b` bytes is reading `a + b` bytes.
pub proof fn lemma_read_twice(v: DeserializerView, a: nat, b: nat)
    requires
        v.data.len() <= u64::MAX,
    ensures
        v.can_read(a) ==> (v.after_read(a).can_read(b) <==> v.can_read(a + b)),
        v.can_read(a) && v.after_read(a).can_read(b) ==> v.after_read(a).after_read(b)
            == v.after_read(a + b),
        v.can_read(a) && !v.after_read(a).can_read(b) ==> v.after_read(a).after_read(b)
            == v.after_read(a + b),
        !v.can_read(a) ==> v.after_read(a) == v.after_read(a + b) && !v.can_read(a + b),
        v.can_read(a + b) ==> v.after_read(a).bytes_at_cursor(b) =~= v.bytes_at_cursor(
            a + b,
        ).subrange(a as int, (a + b) as int),
        v.can_read(a + b) ==> v.bytes_at_cursor(a) =~= v.bytes_at_cursor(a + b).subrange(
            0,
            a as int,
        ),
{
}

/// Reads values from a BIN1 file.
pub struct Bin1Deserializer<'a> {
    data: &'a [u8],
    pos: u64,
    type_names: HashMap<u32, &'a str>,
}

impl<'a> View for Bin1Deserializer<'a> {
    type V = DeserializerView;

    closed spec fn view(&self) -> DeserializerView {
        DeserializerView {
            data: self.data@,
            pos: self.pos,
            type_names: self.type_names@.map_values(|s: &str| s@),
        }
    }
}

/// Values that can be read from a BIN1 file.
pub trait Bin1Deserialize: Sized + Aligned {
    /// The number of bytes that a value takes in the data section.
    const SIZE: usize;

    /// What reading a value does: a deserializer in the state `before` goes to the
    /// state `after`, and `r` is returned.
    spec fn read_spec(before: DeserializerView, after: DeserializerView, r: Result<Self, DeserializeError>) -> bool;

    /// Reads a value at the cursor.
    fn read(de: &mut Bin1Deserializer) -> (r: Result<Self, DeserializeError>)
        ensures
            final(de)@.data == old(de)@.data,
            final(de)@.type_names == old(de)@.type_names,
            Self::read_spec(old(de)@, final(de)@, r),
    ;
}

impl<'a> Bin1Deserializer<'a> {
    /// A deserializer at the start of `data`, with no type names.
    pub fn new(data: &'a [u8]) -> (r: Self)
        ensures
            r@.data == data@,
            r@.pos == 0,
            r@.type_names == Map::<u32, Seq<char>>::empty(),
    {
        let r = Bin1Deserializer { data, pos: 0, type_names: HashMap::new() };
        assert(r@.type_names =~= Map::<u32, Seq<char>>::empty());
        r
    }

    /// The length of the data.
    pub fn data_len(&self) -> (r: usize)
        ensures
            r == self@.data.len(),
    {
        self.data.len()
    }

    /// The cursor position.
    pub fn position(&self) -> (r: u64)
        ensures
            r == self@.pos,
    {
        self.pos
    }

    /// Moves the cursor to `offset`; the new position is returned.
    pub fn seek_from_start(&mut self, offset: u64) -> (r: Result<u64, DeserializeError>)
        ensures
            final(self)@ == old(self)@.at(offset),
            r matches Ok(p) && p == offset,
    {
        self.pos = offset;
        Ok(offset)
    }

    /// Moves the cursor by `offset`; fails, leaving it where it was, if the new
    /// position would be negative or past `u64::MAX`.
    pub fn seek_relative(&mut self, offset: i64) -> (r: Result<(), DeserializeError>)
        ensures
            seek_target(old(self)@.pos, offset) matches Some(p) ==> (r is Ok && final(self)@
                == old(self)@.at(p)),
            seek_target(old(self)@.pos, offset) is None ==> (final(self)@ == old(self)@
                && r matches Err(DeserializeError::Io(IoError::InvalidSeek))),
    {
        match self.pos.checked_add_signed(offset) {
            Some(p) => {
                self.pos = p;
                Ok(())
            },
            None => Err(DeserializeError::Io(IoError::InvalidSeek)),
        }
    }

    /// Moves the cursor forward so that its offset in the data section is a
    /// multiple of `alignment`.
    pub fn align_to(&mut self, alignment: usize) -> (r: Result<(), DeserializeError>)
        requires
            alignment > 0,
        ensures
            final(self)@ == old(self)@.after_align(alignment),
            r is Ok <==> old(self)@.align_ok(alignment),
            r is Err ==> r matches Err(DeserializeError::Io(IoError::InvalidSeek)),
    {
        #[verifier::truncate]
        let rel = self.pos.wrapping_sub(16) as usize;
        let padding = (alignment - rel % alignment) % alignment;
        self.seek_relative(padding as i64)
    }

    /// The `n` bytes at the cursor, moving past them; at the end of the data
    /// instead if there are fewer.
    fn take(&mut self, n: usize) -> (r: Result<&'a [u8], DeserializeError>)
        ensures
            final(self)@ == old(self)@.after_read(n as nat),
            r is Ok <==> old(self)@.can_read(n as nat),
            r matches Ok(s) ==> s@ == old(self)@.bytes_at_cursor(n as nat),
            r is Err ==> r matches Err(DeserializeError::Io(IoError::UnexpectedEof)),
    {
        let len = self.data.len() as u64;
        if self.pos <= len && n as u64 <= len - self.pos {
            let start = self.pos as usize;
            let s = vstd::slice::slice_subrange(self.data, start, start + n);
            self.pos = self.pos + n as u64;
            Ok(s)
        } else {
            self.pos = len;
            Err(DeserializeError::Io(IoError::UnexpectedEof))
        }
    }

    /// Reads the fixed header, giving the segment count and the data size.
    fn read_header_prefix(&mut self) -> (r: Result<(u8, u32), DeserializeError>)
        ensures
            match old(self)@.header_prefix() {
                Ok((v, count, size)) => r matches Ok((c, s)) && c == count && s == size
                    && final(self)@ == v,
                Err((v, f)) => r matches Err(e) && failure_matches(e, f) && final(self)@ == v,
            },
    {
        let magic = self.take(4)?;
        if !(magic[0] == 0x42 && magic[1] == 0x49 && magic[2] == 0x4E && magic[3] == 0x31) {
            proof {
                assert(magic@ != bin1_magic());
            }
            return Err(DeserializeError::InvalidMagic);
        }
        assert(magic@ =~= bin1_magic());
        self.seek_relative(2)?;
        let count = self.read_u8()?;
        self.seek_relative(1)?;
        let data_size = self.read_u32_be()?;
        self.seek_relative(4)?;
        proof {
            let v3 = old(self)@.header_prefix();
            reveal_with_fuel(le_value, 2);
        }
        Ok((count, data_size))
    }

    /// Skips up to `count` segments until the type IDs segment's tag; gives
    /// whether it was found.
    fn skip_to_type_ids(&mut self, count: u8) -> (r: Result<bool, DeserializeError>)
        ensures
            match old(self)@.skip_segments(count as nat) {
                Ok((v, found)) => r matches Ok(f) && f == found && final(self)@ == v,
                Err((v, f)) => r matches Err(e) && failure_matches(e, f) && final(self)@ == v,
            },
    {
        let mut skipped: u8 = 0;
        while skipped < count
            invariant
                skipped <= count,
                old(self)@.skip_segments(count as nat) == self@.skip_segments(
                    (count - skipped) as nat,
                ),
            decreases count - skipped,
        {
            let tag = self.read_u32()?;
            if tag == TYPE_IDS_SEGMENT_TAG {
                return Ok(true);
            }
            let segment_size = self.read_u32()?;
            self.seek_relative(segment_size as i64)?;
            skipped = skipped + 1;
        }
        Ok(false)
    }

    /// Reads `count` type name entries, padded to 4 from `start`.
    fn read_type_entries(&mut self, start: u64, count: u32) -> (r: Result<(), DeserializeError>)
        requires
            old(self)@.pos >= start,
        ensures
            match old(self)@.type_entries_read(start, count as nat) {
                Ok(v) => final(self)@ == v && r is Ok,
                Err((v, f)) => r matches Err(e) && failure_matches(e, f) && final(self)@ == v,
            },
    {
        let mut i: u32 = 0;
        while i < count
            invariant
                i <= count,
                self@.pos >= start,
                old(self)@.type_entries_read(start, count as nat) == self@.type_entries_read(
                    start,
                    (count - i) as nat,
                ),
            decreases count - i,
        {
            let rel = (self.pos - start) as usize;
            self.seek_relative(((4 - rel % 4) % 4) as i64)?;
            let id = self.read_u32()?;
            self.seek_relative(4)?;
            let len = self.read_u32()?;
            let at = self.pos as usize;
            if len == 0 {
                return Err(DeserializeError::StringTooLarge);
            }
            let end = match at.checked_add((len - 1) as usize) {
                Some(e) => e,
                None => {
                    proof {
                        assert(self.data@.len() == self.data.len());
                    }
                    return Err(DeserializeError::StringTooLarge);
                },
            };
            if end > self.data.len() {
                return Err(DeserializeError::StringTooLarge);
            }
            let bytes = vstd::slice::slice_subrange(self.data, at, end);
            let name = match str_from_utf8(bytes) {
                Ok(name) => name,
                Err(e) => {
                    return Err(DeserializeError::Utf8Error(e));
                },
            };
            let ghost before = self@;
            self.type_names.insert(id, name);
            proof {
                assert(self@.type_names =~= before.type_names.insert(id, name@));
            }
            self.seek_relative(len as i64)?;
            i = i + 1;
        }
        Ok(())
    }

    /// Reads the header and, if there is a type IDs segment, the type names from
    /// it; leaves the cursor at the start of the data section.
    pub fn init(&mut self) -> (r: Result<(), DeserializeError>)
        ensures
            final(self)@ == old(self)@.header_read().0,
            match old(self)@.header_read().1 {
                None => r is Ok,
                Some(f) => r matches Err(e) && failure_matches(e, f),
            },
            forall|v: SerializerView|
                #![trigger v.finalised()]
                v.wf() && v.fits_format() && old(self)@.data == v.finalised() && old(self)@.pos == 0
                    && old(self)@.type_names == Map::<u32, Seq<char>>::empty() ==> r is Ok
                    && final(self)@.pos == 16 && final(self)@.data == old(self)@.data
                    && final(self)@.type_names == names_map(v.type_names),
    {
        proof {
            assert(self.data@.len() == self.data.len());
            assert(self@.data.len() <= usize::MAX);
            assert forall|v: SerializerView|
                #![trigger v.finalised()]
                v.wf() && v.fits_format() && self@.data == v.finalised() && self@.pos == 0
                    && self@.type_names == Map::<u32, Seq<char>>::empty() implies self@.header_read()
                    == (DeserializerView { pos: 16, type_names: names_map(v.type_names), ..self@ }, None::<HeaderFailure>) by {
                lemma_header_reads_back(v, self@);
            }
        }
        let (count, data_size) = self.read_header_prefix()?;
        let data_start = self.pos;
        self.seek_relative(data_size as i64)?;
        let found = self.skip_to_type_ids(count)?;
        if found {
            self.seek_relative(4)?;
            let offsets_count = self.read_u32()?;
            self.seek_relative(offsets_count as i64 * 4)?;
            let type_ids_start = self.pos;
            let type_ids_count = self.read_u32()?;
            proof {
                assert(self.data@.len() == self.data.len());
            }
            self.read_type_entries(type_ids_start, type_ids_count)?;
        }
        self.seek_from_start(data_start)?;
        Ok(())
    }

    /// Reads a type ID and gives the type name it refers to.
    pub fn read_type(&mut self) -> (r: Result<&'a str, DeserializeError>)
        ensures
            final(self)@ == old(self)@.type_read().0,
            match old(self)@.type_read().1 {
                TypeRead::Io(k) => r matches Err(DeserializeError::Io(e)) && e == k,
                TypeRead::NoSuchTypeID(id) => r matches Err(DeserializeError::NoSuchTypeID(e))
                    && e == id,
                TypeRead::Name(name) => r matches Ok(s) && s@ == name,
            },
    {
        self.align_to(8)?;
        let id = self.read_u64()?;
        match self.type_names.get(&(id as u32)) {
            Some(name) => Ok(*name),
            None => Err(DeserializeError::NoSuchTypeID(id)),
        }
    }

    /// Reads a string: its length and the offset of its UTF-8 bytes.
    pub fn read_zstring(&mut self) -> (r: Result<String, DeserializeError>)
        ensures
            final(self)@ == old(self)@.zstring_read().0,
            match old(self)@.zstring_read().1 {
                ZStringRead::Io(k) => r matches Err(DeserializeError::Io(e)) && e == k,
                ZStringRead::TooLarge => r matches Err(DeserializeError::StringTooLarge),
                ZStringRead::InvalidUtf8 => r matches Err(DeserializeError::Utf8Error(_)),
                ZStringRead::Text(t) => r matches Ok(s) && s@ == t,
            },
    {
        self.align_to(8)?;
        let len = self.read_u32()? & 0xBFFFFFFF;
        self.align_to(8)?;
        let ptr = self.read_u64()?;
        #[verifier::truncate]
        let start = (ptr as usize).wrapping_add(16);
        let end = match start.checked_add(len as usize) {
            Some(e) => e,
            None => {
                proof {
                    assert(self.data@.len() == self.data.len());
                }
                return Err(DeserializeError::StringTooLarge);
            },
        };
        if end > self.data.len() {
            return Err(DeserializeError::StringTooLarge);
        }
        let bytes = vstd::slice::slice_subrange(self.data, start, end);
        match str_from_utf8(bytes) {
            Ok(text) => Ok(text.to_owned()),
            Err(e) => Err(DeserializeError::Utf8Error(e)),
        }
    }

    /// Reads a pointer and the value it points to: aligns to 8, reads the
    /// pointee's offset in the data section, reads the value there and returns to
    /// just after the pointer.
    pub fn read_pointer<T: Bin1Deserialize>(&mut self) -> (r: Result<Arc<T>, DeserializeError>)
        ensures
            final(self)@.data == old(self)@.data,
            final(self)@.type_names == old(self)@.type_names,
            r is Ok ==> old(self)@.align_ok(8) && old(self)@.after_align(8).can_read(8)
                && final(self)@.pos == old(self)@.after_align(8).after_read(8).pos,
            !old(self)@.align_ok(8) ==> (r matches Err(DeserializeError::Io(IoError::InvalidSeek))),
            old(self)@.align_ok(8) && !old(self)@.after_align(8).can_read(8) ==> (r matches Err(
                DeserializeError::Io(IoError::UnexpectedEof),
            )),
            old(self)@.align_ok(8) && old(self)@.after_align(8).can_read(8) ==> exists|
                mid: DeserializerView,
                r1: Result<T, DeserializeError>,
            |
                #![trigger T::read_spec(old(self)@.pointee_state(), mid, r1)]
                T::read_spec(old(self)@.pointee_state(), mid, r1) && (r1 matches Err(e) ==> r
                    == Err::<Arc<T>, DeserializeError>(e)) && (r1 matches Ok(v) ==> r matches Ok(a)
                    && *a == v && final(self)@ == mid.at(
                    old(self)@.after_align(8).after_read(8).pos,
                )),
    {
        self.align_to(8)?;
        let ptr = self.read_u64()?;
        let pos = self.pos;
        self.pos = ptr.wrapping_add(16);
        let ghost target = self@;
        let r1 = T::read(self);
        proof {
            assert(target == old(self)@.pointee_state());
            assert(T::read_spec(target, self@, r1));
        }
        let value = match r1 {
            Ok(v) => v,
            Err(e) => {
                return Err(e);
            },
        };
        self.pos = pos;
        Ok(Arc::new(value))
    }

    /// Reads a byte.
    pub fn read_u8(&mut self) -> (r: Result<u8, DeserializeError>)
        ensures
            final(self)@ == old(self)@.after_read(1),
            r is Ok <==> old(self)@.can_read(1),
            r matches Ok(v) ==> v as nat == le_value(old(self)@.bytes_at_cursor(1)),
            r is Err ==> r matches Err(DeserializeError::Io(IoError::UnexpectedEof)),
    {
        let s = self.take(1)?;
        proof {
            assert(s@.drop_first() =~= Seq::<u8>::empty());
            assert(le_value(s@.drop_first()) == 0);
            assert(le_value(s@) == s@[0] as nat + 256 * le_value(s@.drop_first()));
        }
        Ok(s[0])
    }

    /// Reads a little-endian `u16`.
    pub fn read_u16(&mut self) -> (r: Result<u16, DeserializeError>)
        ensures
            final(self)@ == old(self)@.after_read(2),
            r is Ok <==> old(self)@.can_read(2),
            r matches Ok(v) ==> v as nat == le_value(old(self)@.bytes_at_cursor(2)),
            r is Err ==> r matches Err(DeserializeError::Io(IoError::UnexpectedEof)),
    {
        let s = self.take(2)?;
        assert(s@.subrange(0, 2) =~= s@);
        Ok(read_u16_le(s))
    }

    /// Reads a little-endian `u32`.
    pub fn read_u32(&mut self) -> (r: Result<u32, DeserializeError>)
        ensures
            final(self)@ == old(self)@.after_read(4),
            r is Ok <==> old(self)@.can_read(4),
            r matches Ok(v) ==> v as nat == le_value(old(self)@.bytes_at_cursor(4)),
            r is Err ==> r matches Err(DeserializeError::Io(IoError::UnexpectedEof)),
    {
        let s = self.take(4)?;
        assert(s@.subrange(0, 4) =~= s@);
        Ok(read_u32_le(s))
    }

    /// Reads a big-endian `u32`.
    pub fn read_u32_be(&mut self) -> (r: Result<u32, DeserializeError>)
        ensures
            final(self)@ == old(self)@.after_read(4),
            r is Ok <==> old(self)@.can_read(4),
            r matches Ok(v) ==> v as nat == be_value(old(self)@.bytes_at_cursor(4)),
            r is Err ==> r matches Err(DeserializeError::Io(IoError::UnexpectedEof)),
    {
        let s = self.take(4)?;
        assert(s@.subrange(0, 4) =~= s@);
        Ok(read_u32_be(s))
    }

    /// Reads a little-endian `u64`.
    pub fn read_u64(&mut self) -> (r: Result<u64, DeserializeError>)
        ensures
            final(self)@ == old(self)@.after_read(8),
            r is Ok <==> old(self)@.can_read(8),
            r matches Ok(v) ==> v as nat == le_value(old(self)@.bytes_at_cursor(8)),
            r is Err ==> r matches Err(DeserializeError::Io(IoError::UnexpectedEof)),
    {
        let s = self.take(8)?;
        assert(s@.subrange(0, 8) =~= s@);
        Ok(read_u64_le(s))
    }

    /// Reads a byte as a two's complement `i8`.
    pub fn read_i8(&mut self) -> (r: Result<i8, DeserializeError>)
        ensures
            final(self)@ == old(self)@.after_read(1),
            r is Ok <==> old(self)@.can_read(1),
            r matches Ok(v) ==> v == le_value(old(self)@.bytes_at_cursor(1)) as i8,
            r is Err ==> r matches Err(DeserializeError::Io(IoError::UnexpectedEof)),
    {
        let v = self.read_u8()?;
        Ok(v as i8)
    }

    /// Reads a little-endian two's complement `i16`.
    pub fn read_i16(&mut self) -> (r: Result<i16, DeserializeError>)
        ensures
            final(self)@ == old(self)@.after_read(2),
            r is Ok <==> old(self)@.can_read(2),
            r matches Ok(v) ==> v == le_value(old(self)@.bytes_at_cursor(2)) as i16,
            r is Err ==> r matches Err(DeserializeError::Io(IoError::UnexpectedEof)),
    {
        let v = self.read_u16()?;
        Ok(v as i16)
    }

    /// Reads a little-endian two's complement `i32`.
    pub fn read_i32(&mut self) -> (r: Result<i32, DeserializeError>)
        ensures
            final(self)@ == old(self)@.after_read(4),
            r is Ok <==> old(self)@.can_read(4),
            r matches Ok(v) ==> v == le_value(old(self)@.bytes_at_cursor(4)) as i32,
            r is Err ==> r matches Err(DeserializeError::Io(IoError::UnexpectedEof)),
    {
        let v = self.read_u32()?;
        Ok(v as i32)
    }

    /// Reads a little-endian two's complement `i64`.
    pub fn read_i64(&mut self) -> (r: Result<i64, DeserializeError>)
        ensures
            final(self)@ == old(self)@.after_read(8),
            r is Ok <==> old(self)@.can_read(8),
            r matches Ok(v) ==> v == le_value(old(self)@.bytes_at_cursor(8)) as i64,
            r is Err ==> r matches Err(DeserializeError::Io(IoError::UnexpectedEof)),
    {
        let v = self.read_u64()?;
        Ok(v as i64)
    }
}

} // verus!
