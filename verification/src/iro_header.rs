//! The fixed header that opens an archive.

use vstd::prelude::*;
use vstd::std_specs::convert::FromSpecImpl;
use vstd::std_specs::convert::TryFromSpecImpl;
use vstd::string::StringExecFns;

use crate::error::Error;
use crate::wire::{i32_le, group_le_len, put_i32_le, put_u32_le, u32_le};

verus! {

/// The signature that opens every archive: the text `IROS`.
pub const IRO_SIG: i32 = 0x534f5249;

/// The number of bytes of a header.
pub const IRO_HEADER_BYTE_SIZE: usize = 20;

/// What the size field of every header holds: the number of bytes of the
/// header behind its signature.
pub const IRO_HEADER_SIZE_FIELD: i32 = 16;

/// The header of an archive. Whatever `size` holds, a header is written with
/// [`IRO_HEADER_SIZE_FIELD`] in its size field, and only such a header is
/// read.
#[derive(Clone, Copy, Debug, PartialEq, Eq, Structural)]
pub struct IroHeader {
    pub version: IroVersion,
    pub flags: IroFlags,
    pub size: i32,
    pub num_files: u32,
}

/// Whether an archive stands alone or patches another.
#[derive(Clone, Copy, Debug, PartialEq, Eq, Structural)]
pub enum IroFlags {
    Full,
    Patch,
}

/// The layout version of an archive; it decides the width of offsets.
#[derive(Clone, Copy, Debug, PartialEq, Eq, Structural)]
pub enum IroVersion {
    Zero,
    Two,
}

impl IroFlags {
    /// The number that stands for these flags in a header: 0 or 1.
    pub open spec fn spec_code(self) -> i32 {
        match self {
            IroFlags::Full => 0,
            IroFlags::Patch => 1,
        }
    }

    /// The flags that `value` stands for, if any.
    pub open spec fn of_code(value: i32) -> Option<IroFlags> {
        if value == 0 {
            Some(IroFlags::Full)
        } else if value == 1 {
            Some(IroFlags::Patch)
        } else {
            None
        }
    }

    /// The number that stands for this value in a header.
    #[verifier::when_used_as_spec(spec_code)]
    pub fn code(self) -> (code: i32)
        ensures
            code == self.spec_code(),
    {
        match self {
            IroFlags::Full => 0,
            IroFlags::Patch => 1,
        }
    }

    /// The kind of archive in words.
    pub open spec fn text(self) -> Seq<char> {
        match self {
            IroFlags::Full => "Full IRO"@,
            IroFlags::Patch => "Patch IRO"@,
        }
    }

    /// The kind of archive in words, for a reader.
    pub fn to_string(&self) -> (text: String)
        ensures
            text@ == self.text(),
    {
        match self {
            IroFlags::Full => String::from_str("Full IRO"),
            IroFlags::Patch => String::from_str("Patch IRO"),
        }
    }
}

impl IroVersion {
    /// The number that stands for this version in a header.
    pub open spec fn spec_code(self) -> i32 {
        match self {
            IroVersion::Zero => 0x10000,
            IroVersion::Two => 0x10002,
        }
    }

    /// The version that `value` stands for, if any.
    pub open spec fn of_code(value: i32) -> Option<IroVersion> {
        if value == 0x10000 {
            Some(IroVersion::Zero)
        } else if value == 0x10002 {
            Some(IroVersion::Two)
        } else {
            None
        }
    }

    /// The number that stands for this value in a header.
    #[verifier::when_used_as_spec(spec_code)]
    pub fn code(self) -> (code: i32)
        ensures
            code == self.spec_code(),
    {
        match self {
            IroVersion::Zero => 0x10000,
            IroVersion::Two => 0x10002,
        }
    }

    /// The version as it is written: its number in hexadecimal.
    pub open spec fn text(self) -> Seq<char> {
        match self {
            IroVersion::Zero => "0x10000"@,
            IroVersion::Two => "0x10002"@,
        }
    }

    /// The version as it is written, for a reader.
    pub fn to_string(&self) -> (text: String)
        ensures
            text@ == self.text(),
    {
        match self {
            IroVersion::Zero => String::from_str("0x10000"),
            IroVersion::Two => String::from_str("0x10002"),
        }
    }
}

impl TryFrom<i32> for IroFlags {
    type Error = Error;

    /// The flags that `value` stands for; any other number is handed back
    /// in the error.
    fn try_from(value: i32) -> (r: Result<Self, Self::Error>)
        ensures
            IroFlags::of_code(value) is Some ==> r == Ok::<Self, Error>(
                IroFlags::of_code(value)->0,
            ),
            IroFlags::of_code(value) is None ==> r == Err::<Self, Error>(
                Error::InvalidIroFlags(value),
            ),
    {
        match value {
            0 => Ok(IroFlags::Full),
            1 => Ok(IroFlags::Patch),
            _ => Err(Error::InvalidIroFlags(value)),
        }
    }
}

impl TryFromSpecImpl<i32> for IroFlags {
    open spec fn obeys_try_from_spec() -> bool {
        true
    }

    open spec fn try_from_spec(value: i32) -> Result<Self, Error> {
        match IroFlags::of_code(value) {
            Some(flags) => Ok(flags),
            None => Err(Error::InvalidIroFlags(value)),
        }
    }
}

impl TryFrom<i32> for IroVersion {
    type Error = Error;

    /// The version that `value` stands for; any other number is handed back
    /// in the error.
    fn try_from(value: i32) -> (r: Result<Self, Self::Error>)
        ensures
            IroVersion::of_code(value) is Some ==> r == Ok::<Self, Error>(
                IroVersion::of_code(value)->0,
            ),
            IroVersion::of_code(value) is None ==> r == Err::<Self, Error>(
                Error::InvalidIroVersion(value),
            ),
    {
        match value {
            0x10000 => Ok(IroVersion::Zero),
            0x10002 => Ok(IroVersion::Two),
            _ => Err(Error::InvalidIroVersion(value)),
        }
    }
}

impl TryFromSpecImpl<i32> for IroVersion {
    open spec fn obeys_try_from_spec() -> bool {
        true
    }

    open spec fn try_from_spec(value: i32) -> Result<Self, Error> {
        match IroVersion::of_code(value) {
            Some(version) => Ok(version),
            None => Err(Error::InvalidIroVersion(value)),
        }
    }
}

/// The twenty bytes of `header` as they open an archive: the signature, the
/// version, the flags, the size field, which always holds
/// [`IRO_HEADER_SIZE_FIELD`], and the number of files.
pub open spec fn header_bytes(header: IroHeader) -> Seq<u8> {
    i32_le(IRO_SIG) + i32_le(header.version.spec_code()) + i32_le(header.flags.spec_code())
        + i32_le(IRO_HEADER_SIZE_FIELD) + u32_le(header.num_files)
}

/// A header takes twenty bytes.
pub proof fn lemma_header_bytes_len(header: IroHeader)
    ensures
        header_bytes(header).len() == IRO_HEADER_BYTE_SIZE,
{
    broadcast use group_le_len;
}

impl IroHeader {
    /// A header of the given fields.
    pub fn new(version: IroVersion, flags: IroFlags, size: i32, num_files: u32) -> (header: Self)
        ensures
            header == (IroHeader { version, flags, size, num_files }),
    {
        IroHeader { version, flags, size, num_files }
    }
}

impl From<IroHeader> for Vec<u8> {
    /// The twenty bytes of the header.
    fn from(value: IroHeader) -> (bytes: Self)
        ensures
            bytes@ == header_bytes(value),
    {
        let mut bytes: Vec<u8> = Vec::new();
        put_i32_le(&mut bytes, IRO_SIG);
        put_i32_le(&mut bytes, value.version.code());
        put_i32_le(&mut bytes, value.flags.code());
        put_i32_le(&mut bytes, IRO_HEADER_SIZE_FIELD);
        put_u32_le(&mut bytes, value.num_files);
        assert(bytes@ =~= header_bytes(value));
        bytes
    }
}

/// A vector is known by what it holds, so no vector can be named here: what
/// `from` yields is stated on `from` itself, over the bytes.
impl FromSpecImpl<IroHeader> for Vec<u8> {
    open spec fn obeys_from_spec() -> bool {
        false
    }

    open spec fn from_spec(value: IroHeader) -> Self {
        arbitrary()
    }
}

} // verus!
