//! The index record that describes one contained file.

use vstd::prelude::*;
use vstd::std_specs::convert::FromSpecImpl;
use vstd::std_specs::convert::TryFromSpecImpl;

use crate::error::Error;
use crate::wire::{
    i32_le, group_le_len, put_i32_le, put_u16_le, put_u32_le, put_u64_le, u16_le, u32_le, u64_le,
};

verus! {

/// The bytes of a record besides its path: two lengths of two bytes each, the
/// compression flag, the offset in its wide form and the data length.
pub const INDEX_FIXED_BYTE_SIZE: usize = 20;

/// The record of one file: where its payload lies in the archive, how long
/// it is and how it is stored, and the path of the file as UTF-16 bytes with
/// `\` between the components.
#[derive(Debug, PartialEq, Eq)]
pub struct IroEntry {
    pub path: Vec<u8>,
    pub flags: FileFlags,
    pub offset: u64,
    pub data_len: u32,
}

/// How the payload of an entry is stored.
#[derive(Debug, Clone, Copy, PartialEq, Eq, Structural)]
pub enum FileFlags {
    Uncompressed,
    LzssCompressed,
    LzmaCompressed,
}

/// An [`IroEntry`] with its path as a sequence of bytes.
pub struct IroEntryView {
    pub path: Seq<u8>,
    pub flags: FileFlags,
    pub offset: u64,
    pub data_len: u32,
}

impl View for IroEntry {
    type V = IroEntryView;

    open spec fn view(&self) -> IroEntryView {
        IroEntryView {
            path: self.path@,
            flags: self.flags,
            offset: self.offset,
            data_len: self.data_len,
        }
    }
}

impl DeepView for IroEntry {
    type V = IroEntryView;

    open spec fn deep_view(&self) -> IroEntryView {
        self@
    }
}

impl FileFlags {
    /// The number that stands for this method in a record.
    pub open spec fn spec_code(self) -> i32 {
        match self {
            FileFlags::Uncompressed => 0,
            FileFlags::LzssCompressed => 1,
            FileFlags::LzmaCompressed => 2,
        }
    }

    /// The method that `value` stands for, if any.
    pub open spec fn of_code(value: i32) -> Option<FileFlags> {
        if value == 0 {
            Some(FileFlags::Uncompressed)
        } else if value == 1 {
            Some(FileFlags::LzssCompressed)
        } else if value == 2 {
            Some(FileFlags::LzmaCompressed)
        } else {
            None
        }
    }

    /// The number that stands for this method in a record.
    #[verifier::when_used_as_spec(spec_code)]
    pub fn code(self) -> (code: i32)
        ensures
            code == self.spec_code(),
    {
        match self {
            FileFlags::Uncompressed => 0,
            FileFlags::LzssCompressed => 1,
            FileFlags::LzmaCompressed => 2,
        }
    }
}

impl TryFrom<i32> for FileFlags {
    type Error = Error;

    /// The method that `value` stands for; any other number is handed back
    /// in the error.
    fn try_from(value: i32) -> (r: Result<Self, Self::Error>)
        ensures
            FileFlags::of_code(value) is Some ==> r == Ok::<Self, Error>(
                FileFlags::of_code(value)->0,
            ),
            FileFlags::of_code(value) is None ==> r == Err::<Self, Error>(
                Error::InvalidFileFlags(value),
            ),
    {
        match value {
            0 => Ok(FileFlags::Uncompressed),
            1 => Ok(FileFlags::LzssCompressed),
            2 => Ok(FileFlags::LzmaCompressed),
            _ => Err(Error::InvalidFileFlags(value)),
        }
    }
}

impl TryFromSpecImpl<i32> for FileFlags {
    open spec fn obeys_try_from_spec() -> bool {
        true
    }

    open spec fn try_from_spec(value: i32) -> Result<Self, Error> {
        match FileFlags::of_code(value) {
            Some(flags) => Ok(flags),
            None => Err(Error::InvalidFileFlags(value)),
        }
    }
}

/// The number of bytes that the record of a path of `path_len` bytes takes.
pub open spec fn entry_size(path_len: nat) -> nat {
    path_len + INDEX_FIXED_BYTE_SIZE as nat
}

/// The bytes of `entry` as they stand in an index. The record opens with its
/// own length and the length of its path, each cut to sixteen bits, and always
/// holds the offset in its wide form.
pub open spec fn entry_bytes(entry: IroEntryView) -> Seq<u8> {
    u16_le((entry_size(entry.path.len()) % 0x1_0000) as u16) + u16_le(
        (entry.path.len() % 0x1_0000) as u16,
    ) + entry.path + i32_le(entry.flags.spec_code()) + u64_le(entry.offset) + u32_le(
        entry.data_len,
    )
}

/// A record takes as many bytes as [`entry_size`] says.
pub proof fn lemma_entry_bytes_len(entry: IroEntryView)
    ensures
        entry_bytes(entry).len() == entry_size(entry.path.len()),
{
    broadcast use group_le_len;
}

impl IroEntry {
    /// A record of the given fields.
    pub fn new(path: Vec<u8>, flags: FileFlags, offset: u64, data_len: u32) -> (entry: Self)
        ensures
            entry == (IroEntry { path, flags, offset, data_len }),
    {
        IroEntry { path, flags, offset, data_len }
    }
}

impl From<IroEntry> for Vec<u8> {
    /// The bytes of the record, its length prefix included.
    fn from(value: IroEntry) -> (bytes: Self)
        ensures
            bytes@ == entry_bytes(value@),
    {
        let path_len = value.path.len();
        let total = ((path_len % 0x1_0000 + INDEX_FIXED_BYTE_SIZE) % 0x1_0000) as u16;
        let short = (path_len % 0x1_0000) as u16;
        assert(total == entry_size(value.path@.len()) % 0x1_0000);
        let ghost entry = value@;
        let mut bytes: Vec<u8> = Vec::new();
        put_u16_le(&mut bytes, total);
        put_u16_le(&mut bytes, short);
        let mut path = value.path;
        bytes.append(&mut path);
        assert(bytes@ =~= u16_le(total) + u16_le(short) + entry.path);
        put_i32_le(&mut bytes, value.flags.code());
        put_u64_le(&mut bytes, value.offset);
        put_u32_le(&mut bytes, value.data_len);
        bytes
    }
}

/// A vector is known by what it holds, so no vector can be named here: what
/// `from` yields is stated on `from` itself, over the bytes.
impl FromSpecImpl<IroEntry> for Vec<u8> {
    open spec fn obeys_from_spec() -> bool {
        false
    }

    open spec fn from_spec(value: IroEntry) -> Self {
        arbitrary()
    }
}

} // verus!
