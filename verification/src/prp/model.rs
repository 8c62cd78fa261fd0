//! The four fixed-layout structures that make up a `.prp` asset map.
//!
//! Field order and width: the file header is 16 bytes, the map header 24, a
//! type record 12 and an asset record 32. All integers are little-endian.

use vstd::prelude::*;

verus! {

/// Bytes in the file header, and the file offset at which the blob region
/// begins.
pub const FILE_HEADER_LEN: usize = 16;

/// Bytes in the map header.
pub const MAP_HEADER_LEN: usize = 24;

/// Bytes in one type record.
pub const TYPE_REC_LEN: usize = 12;

/// Bytes in one asset record.
pub const ASSET_REC_LEN: usize = 32;

/// `"Prop"` as stored.
pub const PROP_FOURCC: u32 = 0x5072_6F70;

/// `"Fave"` as stored.
pub const FAVE_FOURCC: u32 = 0x4661_7665;

/// `"User"` as stored.
pub const USER_FOURCC: u32 = 0x5573_6572;

/// `"IUsr"` as stored.
pub const IUSR_FOURCC: u32 = 0x4955_7372;

/// The 16-byte file header at offset 0.
///
/// ```text
/// +0x00 data_offset       where the blob region starts (= 16)
/// +0x04 data_size         bytes of blob region
/// +0x08 asset_map_offset  data_offset + data_size
/// +0x0c asset_map_size    bytes of the map (header + types + records + names)
/// ```
#[derive(Debug, Clone, Copy, PartialEq, Eq, Hash, Default, Structural)]
pub struct AssetFileHeader {
    /// Offset of the blob region; the 16-byte header size in every file observed.
    pub data_offset: u32,
    /// Length in bytes of the blob region.
    pub data_size: u32,
    /// Offset of the asset map; `data_offset + data_size`.
    pub asset_map_offset: u32,
    /// Length in bytes of the asset map.
    pub asset_map_size: u32,
}

impl AssetFileHeader {
    /// The file-size invariant: the map ends exactly at EOF.
    pub fn invariant_holds(&self, filesize: usize) -> (r: bool)
        ensures
            r == (self.asset_map_offset as int + self.asset_map_size as int == filesize as int),
    {
        (self.asset_map_offset as u64) + (self.asset_map_size as u64) == filesize as u64
    }
}

/// The 24-byte map header, the first structure at `asset_map_offset`.
///
/// Offsets in it are map-relative.
#[derive(Debug, Clone, Copy, PartialEq, Eq, Hash, Default, Structural)]
pub struct AssetMapHeader {
    /// Number of [`AssetTypeRec`] entries.
    pub nbr_types: i32,
    /// Total number of [`AssetRec`] entries across every type.
    pub nbr_assets: i32,
    /// Length in bytes of the names blob.
    pub len_names: i32,
    /// Map-relative offset of the type records (= 24).
    pub types_offset: u32,
    /// Map-relative offset of the asset records.
    pub recs_offset: u32,
    /// Map-relative offset of the names blob.
    pub names_offset: u32,
}

/// A 12-byte asset-type record.
#[derive(Debug, Clone, Copy, PartialEq, Eq, Hash, Default, Structural)]
pub struct AssetTypeRec {
    /// 4CC as stored: the big-endian reading of the four characters, stored
    /// little-endian (`"Prop"` is `0x5072_6F70`). Unknown values are legal.
    pub asset_type: i32,
    /// Number of records of this type.
    pub nbr_assets: i32,
    /// Index of this type's first record in the [`AssetRec`] array.
    pub first_asset: i32,
}

impl AssetTypeRec {
    /// The 4CC as a named [`AssetType`], or [`AssetType::Unknown`].
    pub fn kind(&self) -> (r: AssetType)
        ensures
            r == spec_asset_type_from_raw(self.asset_type as u32),
    {
        AssetType::from_raw(self.asset_type as u32)
    }
}

/// A 4CC as used by [`AssetTypeRec::asset_type`]. The last variant carries the
/// raw value so an unrecognised type can be written back verbatim.
#[derive(Debug, Clone, Copy, PartialEq, Eq, Hash, Structural)]
pub enum AssetType {
    /// `"Prop"` — the props actually served.
    Prop,
    /// `"Fave"` — a single sentinel record in real files.
    Fave,
    /// `"User"` — user-defined asset type.
    User,
    /// `"IUsr"` — another user-defined asset type.
    IUsr,
    /// Any other 4CC, kept verbatim.
    Unknown(u32),
}

/// Classify a raw stored 4CC value.
pub open spec fn spec_asset_type_from_raw(raw: u32) -> AssetType {
    if raw == PROP_FOURCC {
        AssetType::Prop
    } else if raw == FAVE_FOURCC {
        AssetType::Fave
    } else if raw == USER_FOURCC {
        AssetType::User
    } else if raw == IUSR_FOURCC {
        AssetType::IUsr
    } else {
        AssetType::Unknown(raw)
    }
}

/// The raw stored value of a 4CC.
pub open spec fn spec_asset_type_to_raw(t: AssetType) -> u32 {
    match t {
        AssetType::Prop => PROP_FOURCC,
        AssetType::Fave => FAVE_FOURCC,
        AssetType::User => USER_FOURCC,
        AssetType::IUsr => IUSR_FOURCC,
        AssetType::Unknown(raw) => raw,
    }
}

impl AssetType {
    /// Classify a raw stored 4CC value. Never fails; anything unrecognised
    /// becomes [`AssetType::Unknown`] carrying the original value.
    pub fn from_raw(raw: u32) -> (r: Self)
        ensures
            r == spec_asset_type_from_raw(raw),
    {
        if raw == PROP_FOURCC {
            AssetType::Prop
        } else if raw == FAVE_FOURCC {
            AssetType::Fave
        } else if raw == USER_FOURCC {
            AssetType::User
        } else if raw == IUSR_FOURCC {
            AssetType::IUsr
        } else {
            AssetType::Unknown(raw)
        }
    }

    /// Read a 4CC from its four characters, e.g. `*b"Prop"`.
    pub fn from_fourcc(fourcc: [u8; 4]) -> (r: Self)
        ensures
            r == spec_asset_type_from_raw(
                (fourcc@[0] as int * 16777216 + fourcc@[1] as int * 65536 + fourcc@[2] as int
                    * 256 + fourcc@[3] as int) as u32,
            ),
    {
        let raw = (fourcc[0] as u32) * 16777216 + (fourcc[1] as u32) * 65536 + (fourcc[2] as u32)
            * 256 + (fourcc[3] as u32);
        Self::from_raw(raw)
    }

    /// The raw stored value, the exact inverse of [`Self::from_raw`].
    pub fn to_raw(self) -> (r: u32)
        ensures
            r == spec_asset_type_to_raw(self),
    {
        match self {
            AssetType::Prop => PROP_FOURCC,
            AssetType::Fave => FAVE_FOURCC,
            AssetType::User => USER_FOURCC,
            AssetType::IUsr => IUSR_FOURCC,
            AssetType::Unknown(raw) => raw,
        }
    }

    /// A short human-readable label for messages.
    pub fn name(self) -> (r: &'static str)
        ensures
            r == (match self {
                AssetType::Prop => "Prop",
                AssetType::Fave => "Fave",
                AssetType::User => "User",
                AssetType::IUsr => "IUsr",
                AssetType::Unknown(_) => "Unknown",
            }),
    {
        match self {
            AssetType::Prop => "Prop",
            AssetType::Fave => "Fave",
            AssetType::User => "User",
            AssetType::IUsr => "IUsr",
            AssetType::Unknown(_) => "Unknown",
        }
    }
}

/// Classifying a raw 4CC and storing it back gives the raw value.
pub proof fn lemma_asset_type_raw_round_trip(raw: u32)
    ensures
        spec_asset_type_to_raw(spec_asset_type_from_raw(raw)) == raw,
{
}

/// A 32-byte asset record: the record the server binary searches.
///
/// `r_handle` and `flags` are runtime state that is always zero on disk;
/// `flags` is not the prop's flag word.
#[derive(Debug, Clone, Copy, PartialEq, Eq, Hash, Default, Structural)]
pub struct AssetRec {
    /// Prop id the scripts reference. Compared **signed**; duplicate ids are
    /// legal.
    pub id: i32,
    /// Runtime asset handle; always 0 on disk.
    pub r_handle: i32,
    /// Data-relative blob offset: the blob is at file offset
    /// `FILE_HEADER_LEN + data_offset`.
    pub data_offset: u32,
    /// Blob length in bytes, including the 12-byte blob header.
    pub data_size: u32,
    /// Timestamp-ish field, only preserved.
    pub last_use_time: i32,
    /// Byte offset of the name entry inside the names blob, or `-1` when unnamed.
    pub name_offset: i32,
    /// Runtime asset flags (0 on disk); not the prop's flag word.
    pub flags: u32,
    /// CRC of the blob after its 12-byte header.
    pub crc: u32,
}

impl AssetRec {
    /// Whether `name_offset` marks the record unnamed (negative).
    pub fn is_unnamed(&self) -> (r: bool)
        ensures
            r == (self.name_offset < 0),
    {
        self.name_offset < 0
    }

    /// File offset of this record's blob: `FILE_HEADER_LEN + data_offset`.
    pub fn blob_file_offset(&self) -> (r: u64)
        ensures
            r == FILE_HEADER_LEN as int + self.data_offset as int,
    {
        FILE_HEADER_LEN as u64 + self.data_offset as u64
    }
}

} // verus!
