use vstd::prelude::*;

verus! {

/// First format version.
pub const VERSION_INITIAL: i32 = 1;

/// First version whose entry records carry no timestamp.
pub const VERSION_NO_TIMESTAMPS: i32 = 2;

/// First version whose entry records carry compression block lists.
pub const VERSION_COMPRESSION_ENCRYPTION: i32 = 3;

/// First version whose trailer encrypted flag is honoured.
pub const VERSION_INDEX_ENCRYPTION: i32 = 4;

/// First version whose trailer carries an encryption key identifier.
pub const VERSION_ENCRYPTION_KEY_GUID: i32 = 7;

/// First version that names its compression methods in the trailer.
pub const VERSION_FNAME_BASED_COMPRESSION: i32 = 8;

/// First version whose trailer carries the frozen-index flag byte.
pub const VERSION_FROZEN_INDEX: i32 = 9;

/// Highest version the decoder accepts.
pub const VERSION_LAST: i32 = 9;

/// The candidate trailer sizes, in the order probing tries them.
#[derive(Clone, Copy, Debug, PartialEq, Eq, Structural)]
pub enum PakVersionSizes {
    /// The fixed fields alone: key id, encrypted flag, magic, version,
    /// index offset, index size and digest.
    Size,
    /// The fixed fields plus four 32-byte compression method name slots.
    SizeV8,
    /// The fixed fields plus five 32-byte compression method name slots.
    SizeV8A,
    /// The five-slot layout plus the frozen-index flag byte.
    SizeV9,
}

impl PakVersionSizes {
    /// How many trailer bytes this candidate covers.
    pub open spec fn size_spec(&self) -> int {
        match self {
            PakVersionSizes::Size => 61,
            PakVersionSizes::SizeV8 => 189,
            PakVersionSizes::SizeV8A => 221,
            PakVersionSizes::SizeV9 => 222,
        }
    }

    pub fn size_bytes(&self) -> (r: usize)
        ensures
            r as int == self.size_spec(),
    {
        match self {
            PakVersionSizes::Size => 61,
            PakVersionSizes::SizeV8 => 189,
            PakVersionSizes::SizeV8A => 221,
            PakVersionSizes::SizeV9 => 222,
        }
    }

    /// All candidate trailer sizes, smallest first.
    pub fn get_sizes() -> (r: Vec<PakVersionSizes>)
        ensures
            r@ =~= seq![
                PakVersionSizes::Size,
                PakVersionSizes::SizeV8,
                PakVersionSizes::SizeV8A,
                PakVersionSizes::SizeV9,
            ],
    {
        let mut v: Vec<PakVersionSizes> = Vec::new();
        v.push(PakVersionSizes::Size);
        v.push(PakVersionSizes::SizeV8);
        v.push(PakVersionSizes::SizeV8A);
        v.push(PakVersionSizes::SizeV9);
        v
    }
}

} // verus!
