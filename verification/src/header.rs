//! The header block: its layout, and the typed fields read from it.

use crate::error::{TarError, TextField};
use crate::text::{field_number, field_text, field_to_number, slice_to_str};
use vstd::prelude::*;

verus! {

/// The size of a block in bytes. Headers and contents both come in whole
/// blocks.
pub const BLOCK_SIZE: usize = 512;

/// The kind of an entry, as its type flag gives it.
#[derive(Debug, Clone, Copy, PartialEq, Eq)]
pub enum TarFileType {
    RegularFile,
    Link,
    SymTypeReserved,
    CharacterSpecial,
    BlockSpecial,
    Dir,
    FifoSpecial,
    ContTypeReserved,
    XHDType,
    XGLType,
}

/// The kind that a type flag stands for. The flag 0 of older archives is a
/// regular file, like `'0'`.
pub open spec fn file_type_of(flag: u8) -> Option<TarFileType> {
    if flag == 0x30 || flag == 0 {
        Some(TarFileType::RegularFile)
    } else if flag == 0x31 {
        Some(TarFileType::Link)
    } else if flag == 0x32 {
        Some(TarFileType::SymTypeReserved)
    } else if flag == 0x33 {
        Some(TarFileType::CharacterSpecial)
    } else if flag == 0x34 {
        Some(TarFileType::BlockSpecial)
    } else if flag == 0x35 {
        Some(TarFileType::Dir)
    } else if flag == 0x36 {
        Some(TarFileType::FifoSpecial)
    } else if flag == 0x37 {
        Some(TarFileType::ContTypeReserved)
    } else if flag == 0x78 {
        Some(TarFileType::XHDType)
    } else if flag == 0x67 {
        Some(TarFileType::XGLType)
    } else {
        None
    }
}

/// Whether a magic field holds `ustar` followed by a NUL or by a space.
pub open spec fn magic_ok(magic: Seq<u8>) -> bool {
    ||| magic == seq![0x75u8, 0x73u8, 0x74u8, 0x61u8, 0x72u8, 0x20u8]
    ||| magic == seq![0x75u8, 0x73u8, 0x74u8, 0x61u8, 0x72u8, 0x00u8]
}

/// The number that eight bytes hold, most significant byte first.
pub open spec fn big_endian_u64(bytes: Seq<u8>) -> u64 {
    ((bytes[0] as u64) << 56) | ((bytes[1] as u64) << 48) | ((bytes[2] as u64) << 40) | ((
    bytes[3] as u64) << 32) | ((bytes[4] as u64) << 24) | ((bytes[5] as u64) << 16) | ((
    bytes[6] as u64) << 8) | (bytes[7] as u64)
}

/// The fields of a header as plain values.
pub struct HeaderView {
    pub name: Seq<u8>,
    pub mode: u64,
    pub uid: u64,
    pub gid: u64,
    pub size: Seq<u8>,
    pub mtime: Seq<u8>,
    pub chksum: u64,
    pub typeflag: u8,
    pub linkname: Seq<u8>,
    pub magic: Seq<u8>,
    pub version: Seq<u8>,
    pub uname: Seq<u8>,
    pub gname: Seq<u8>,
    pub devmajor: u64,
    pub devminor: u64,
    pub prefix: Seq<u8>,
}

/// The typed fields of a header as plain values.
pub struct FieldsView {
    pub name: Seq<char>,
    pub uname: Seq<char>,
    pub gname: Seq<char>,
    pub size: u64,
    pub typeflag: TarFileType,
}

/// The layout of a header block: each field with the bytes it occupies. The
/// 12 bytes after the prefix are padding.
pub open spec fn header_at(block: Seq<u8>) -> HeaderView {
    HeaderView {
        name: block.subrange(0, 100),
        mode: big_endian_u64(block.subrange(100, 108)),
        uid: big_endian_u64(block.subrange(108, 116)),
        gid: big_endian_u64(block.subrange(116, 124)),
        size: block.subrange(124, 136),
        mtime: block.subrange(136, 148),
        chksum: big_endian_u64(block.subrange(148, 156)),
        typeflag: block[156],
        linkname: block.subrange(157, 257),
        magic: block.subrange(257, 263),
        version: block.subrange(263, 265),
        uname: block.subrange(265, 297),
        gname: block.subrange(297, 329),
        devmajor: big_endian_u64(block.subrange(329, 337)),
        devminor: big_endian_u64(block.subrange(337, 345)),
        prefix: block.subrange(345, 500),
    }
}

impl HeaderView {
    /// The typed fields of a header, or the error of the first field that
    /// cannot be read: name, user name, group name, size, type flag.
    pub open spec fn typed_fields(self) -> Result<FieldsView, TarError> {
        if field_text(self.name) is None {
            Err(TarError::InvalidText(TextField::Name))
        } else if field_text(self.uname) is None {
            Err(TarError::InvalidText(TextField::Uname))
        } else if field_text(self.gname) is None {
            Err(TarError::InvalidText(TextField::Gname))
        } else if field_number(self.size) is None {
            Err(TarError::InvalidSize)
        } else if file_type_of(self.typeflag) is None {
            Err(TarError::InvalidTypeFlag)
        } else {
            Ok(
                FieldsView {
                    name: field_text(self.name).unwrap(),
                    uname: field_text(self.uname).unwrap(),
                    gname: field_text(self.gname).unwrap(),
                    size: field_number(self.size).unwrap(),
                    typeflag: file_type_of(self.typeflag).unwrap(),
                },
            )
        }
    }

    /// What a decoder makes of a header: the magic is checked first, then
    /// the typed fields are read.
    pub open spec fn entry_fields(self) -> Result<FieldsView, TarError> {
        if magic_ok(self.magic) {
            self.typed_fields()
        } else {
            Err(TarError::InvalidMagic)
        }
    }
}

/// One header block, split into its fields.
#[derive(Debug, Clone, Copy, PartialEq, Eq)]
pub struct TarHeader {
    name: [u8; 100],
    mode: u64,
    uid: u64,
    gid: u64,
    size: [u8; 12],
    mtime: [u8; 12],
    chksum: u64,
    typeflag: u8,
    linkname: [u8; 100],
    magic: [u8; 6],
    version: [u8; 2],
    uname: [u8; 32],
    gname: [u8; 32],
    devmajor: u64,
    devminor: u64,
    prefix: [u8; 155],
}

/// The typed fields of a header. The text borrows from the header.
pub struct TarHeaderCastedFields<'a> {
    pub name: &'a str,
    pub uname: &'a str,
    pub gname: &'a str,
    pub size: u64,
    pub typeflag: TarFileType,
}

impl<'a> View for TarHeaderCastedFields<'a> {
    type V = FieldsView;

    open spec fn view(&self) -> FieldsView {
        FieldsView {
            name: self.name@,
            uname: self.uname@,
            gname: self.gname@,
            size: self.size,
            typeflag: self.typeflag,
        }
    }
}

impl View for TarHeader {
    type V = HeaderView;

    closed spec fn view(&self) -> HeaderView {
        HeaderView {
            name: self.name@,
            mode: self.mode,
            uid: self.uid,
            gid: self.gid,
            size: self.size@,
            mtime: self.mtime@,
            chksum: self.chksum,
            typeflag: self.typeflag,
            linkname: self.linkname@,
            magic: self.magic@,
            version: self.version@,
            uname: self.uname@,
            gname: self.gname@,
            devmajor: self.devmajor,
            devminor: self.devminor,
            prefix: self.prefix@,
        }
    }
}

/// Copies the `N` bytes of a block that start at `start`.
fn copy_field<const N: usize>(block: &[u8; 512], start: usize) -> (out: [u8; N])
    requires
        start + N <= 512,
    ensures
        out@ == block@.subrange(start as int, start + N),
{
    let mut out: [u8; N] = [0u8; N];
    let mut i: usize = 0;
    while i < N
        invariant
            i <= N,
            start + N <= 512,
            forall|j: int| 0 <= j < i ==> out@[j] == block@[start + j],
        decreases N - i,
    {
        out[i] = block[start + i];
        i += 1;
    }
    assert(out@ =~= block@.subrange(start as int, start + N));
    out
}

/// Reads the eight bytes of a block that start at `start` as a number.
fn read_u64(block: &[u8; 512], start: usize) -> (out: u64)
    requires
        start + 8 <= 512,
    ensures
        out == big_endian_u64(block@.subrange(start as int, start + 8)),
{
    ((block[start] as u64) << 56) | ((block[start + 1] as u64) << 48) | ((block[start
        + 2] as u64) << 40) | ((block[start + 3] as u64) << 32) | ((block[start + 4] as u64) << 24)
        | ((block[start + 5] as u64) << 16) | ((block[start + 6] as u64) << 8) | (block[start
        + 7] as u64)
}

/// Writes the bytes of `field` into `block` from `start` on.
fn paste_field<const N: usize>(block: &mut [u8; 512], start: usize, field: &[u8; N])
    requires
        start + N <= 512,
    ensures
        final(block)@.subrange(start as int, start + N) == field@,
        forall|i: int|
            0 <= i < 512 && !(start <= i < start + N) ==> final(block)@[i] == old(block)@[i],
{
    let mut i: usize = 0;
    while i < N
        invariant
            i <= N,
            start + N <= 512,
            forall|j: int| 0 <= j < i ==> block@[start + j] == field@[j],
            forall|j: int| 0 <= j < 512 && !(start <= j < start + N) ==> block@[j] == old(block)@[j],
        decreases N - i,
    {
        block[start + i] = field[i];
        i += 1;
    }
    assert(block@.subrange(start as int, start + N) =~= field@);
}

/// Writes `value` into the eight bytes of `block` from `start` on, most
/// significant byte first.
fn write_u64(block: &mut [u8; 512], start: usize, value: u64)
    requires
        start + 8 <= 512,
    ensures
        big_endian_u64(final(block)@.subrange(start as int, start + 8)) == value,
        forall|i: int|
            0 <= i < 512 && !(start <= i < start + 8) ==> final(block)@[i] == old(block)@[i],
{
    let b0: u8 = byte_of(value, 56);
    let b1: u8 = byte_of(value, 48);
    let b2: u8 = byte_of(value, 40);
    let b3: u8 = byte_of(value, 32);
    let b4: u8 = byte_of(value, 24);
    let b5: u8 = byte_of(value, 16);
    let b6: u8 = byte_of(value, 8);
    let b7: u8 = byte_of(value, 0);
    block[start] = b0;
    block[start + 1] = b1;
    block[start + 2] = b2;
    block[start + 3] = b3;
    block[start + 4] = b4;
    block[start + 5] = b5;
    block[start + 6] = b6;
    block[start + 7] = b7;
    assert(((b0 as u64) << 56) | ((b1 as u64) << 48) | ((b2 as u64) << 40) | ((b3 as u64) << 32)
        | ((b4 as u64) << 24) | ((b5 as u64) << 16) | ((b6 as u64) << 8) | (b7 as u64) == value)
        by (bit_vector)
        requires
            b0 == (value >> 56) & 0xff,
            b1 == (value >> 48) & 0xff,
            b2 == (value >> 40) & 0xff,
            b3 == (value >> 32) & 0xff,
            b4 == (value >> 24) & 0xff,
            b5 == (value >> 16) & 0xff,
            b6 == (value >> 8) & 0xff,
            b7 == (value >> 0) & 0xff,
    ;
}

/// The byte of `value` that stands `shift` bits above its lowest.
fn byte_of(value: u64, shift: u64) -> (b: u8)
    requires
        shift < 64,
    ensures
        b == (value >> shift) & 0xff,
{
    let low: u64 = (value >> shift) & 0xff;
    assert(low <= 0xff) by (bit_vector)
        requires
            low == (value >> shift) & 0xff,
    ;
    low as u8
}

impl TarHeader {
    /// Splits a header block into its fields.
    pub fn from_block(block: &[u8; 512]) -> (header: TarHeader)
        ensures
            header@ == header_at(block@),
    {
        TarHeader {
            name: copy_field::<100>(block, 0),
            mode: read_u64(block, 100),
            uid: read_u64(block, 108),
            gid: read_u64(block, 116),
            size: copy_field::<12>(block, 124),
            mtime: copy_field::<12>(block, 136),
            chksum: read_u64(block, 148),
            typeflag: block[156],
            linkname: copy_field::<100>(block, 157),
            magic: copy_field::<6>(block, 257),
            version: copy_field::<2>(block, 263),
            uname: copy_field::<32>(block, 265),
            gname: copy_field::<32>(block, 297),
            devmajor: read_u64(block, 329),
            devminor: read_u64(block, 337),
            prefix: copy_field::<155>(block, 345),
        }
    }

    /// Joins the fields into a header block again. The padding is zero.
    pub fn to_block(&self) -> (block: [u8; 512])
        ensures
            header_at(block@) == self@,
            forall|i: int| 500 <= i < 512 ==> block@[i] == 0,
    {
        let mut block: [u8; 512] = [0u8; 512];
        paste_field::<100>(&mut block, 0, &self.name);
        write_u64(&mut block, 100, self.mode);
        write_u64(&mut block, 108, self.uid);
        write_u64(&mut block, 116, self.gid);
        paste_field::<12>(&mut block, 124, &self.size);
        paste_field::<12>(&mut block, 136, &self.mtime);
        write_u64(&mut block, 148, self.chksum);
        block[156] = self.typeflag;
        paste_field::<100>(&mut block, 157, &self.linkname);
        paste_field::<6>(&mut block, 257, &self.magic);
        paste_field::<2>(&mut block, 263, &self.version);
        paste_field::<32>(&mut block, 265, &self.uname);
        paste_field::<32>(&mut block, 297, &self.gname);
        write_u64(&mut block, 329, self.devmajor);
        write_u64(&mut block, 337, self.devminor);
        paste_field::<155>(&mut block, 345, &self.prefix);
        assert(block@.subrange(0, 100) =~= self.name@);
        assert(block@.subrange(124, 136) =~= self.size@);
        assert(block@.subrange(136, 148) =~= self.mtime@);
        assert(block@.subrange(157, 257) =~= self.linkname@);
        assert(block@.subrange(257, 263) =~= self.magic@);
        assert(block@.subrange(263, 265) =~= self.version@);
        assert(block@.subrange(265, 297) =~= self.uname@);
        assert(block@.subrange(297, 329) =~= self.gname@);
        assert(block@.subrange(345, 500) =~= self.prefix@);
        block
    }

    /// The entry's path.
    pub fn name(&self) -> (r: Result<&str, TarError>)
        ensures
            match r {
                Ok(s) => field_text(self@.name) == Some(s@),
                Err(e) => field_text(self@.name) is None && e == TarError::InvalidText(
                    TextField::Name,
                ),
            },
    {
        match slice_to_str(self.name.as_slice()) {
            Some(s) => Ok(s),
            None => Err(TarError::InvalidText(TextField::Name)),
        }
    }

    /// The owner's user name.
    pub fn uname(&self) -> (r: Result<&str, TarError>)
        ensures
            match r {
                Ok(s) => field_text(self@.uname) == Some(s@),
                Err(e) => field_text(self@.uname) is None && e == TarError::InvalidText(
                    TextField::Uname,
                ),
            },
    {
        match slice_to_str(self.uname.as_slice()) {
            Some(s) => Ok(s),
            None => Err(TarError::InvalidText(TextField::Uname)),
        }
    }

    /// The owner's group name.
    pub fn gname(&self) -> (r: Result<&str, TarError>)
        ensures
            match r {
                Ok(s) => field_text(self@.gname) == Some(s@),
                Err(e) => field_text(self@.gname) is None && e == TarError::InvalidText(
                    TextField::Gname,
                ),
            },
    {
        match slice_to_str(self.gname.as_slice()) {
            Some(s) => Ok(s),
            None => Err(TarError::InvalidText(TextField::Gname)),
        }
    }

    /// The declared size of the entry's contents in bytes.
    pub fn size(&self) -> (r: Result<u64, TarError>)
        ensures
            match r {
                Ok(n) => field_number(self@.size) == Some(n),
                Err(e) => field_number(self@.size) is None && e == TarError::InvalidSize,
            },
    {
        match field_to_number(self.size.as_slice()) {
            Some(n) => Ok(n),
            None => Err(TarError::InvalidSize),
        }
    }

    /// The kind of the entry.
    pub fn typeflag(&self) -> (r: Result<TarFileType, TarError>)
        ensures
            match r {
                Ok(kind) => file_type_of(self@.typeflag) == Some(kind),
                Err(e) => file_type_of(self@.typeflag) is None && e == TarError::InvalidTypeFlag,
            },
    {
        let flag = match self.typeflag {
            0x30 | 0 => TarFileType::RegularFile,
            0x31 => TarFileType::Link,
            0x32 => TarFileType::SymTypeReserved,
            0x33 => TarFileType::CharacterSpecial,
            0x34 => TarFileType::BlockSpecial,
            0x35 => TarFileType::Dir,
            0x36 => TarFileType::FifoSpecial,
            0x37 => TarFileType::ContTypeReserved,
            0x78 => TarFileType::XHDType,
            0x67 => TarFileType::XGLType,
            _ => return Err(TarError::InvalidTypeFlag),
        };
        Ok(flag)
    }

    /// All typed fields at once. The first field that cannot be read gives
    /// the error.
    pub fn casted_fields(&self) -> (r: Result<TarHeaderCastedFields<'_>, TarError>)
        ensures
            match r {
                Ok(fields) => self@.typed_fields() == Ok::<FieldsView, TarError>(fields@),
                Err(e) => self@.typed_fields() == Err::<FieldsView, TarError>(e),
            },
    {
        Ok(
            TarHeaderCastedFields {
                name: self.name()?,
                uname: self.uname()?,
                gname: self.gname()?,
                size: self.size()?,
                typeflag: self.typeflag()?,
            },
        )
    }

    /// Checks the magic field.
    pub fn validate_magic(&self) -> (r: Result<(), TarError>)
        ensures
            r is Ok <==> magic_ok(self@.magic),
            r matches Err(e) ==> e == TarError::InvalidMagic,
    {
        let m = &self.magic;
        if m[0] == 0x75 && m[1] == 0x73 && m[2] == 0x74 && m[3] == 0x61 && m[4] == 0x72 && (m[5]
            == 0x20 || m[5] == 0) {
            assert(self.magic@ =~= seq![0x75u8, 0x73u8, 0x74u8, 0x61u8, 0x72u8, m[5]]);
            Ok(())
        } else {
            Err(TarError::InvalidMagic)
        }
    }
}

} // verus!
