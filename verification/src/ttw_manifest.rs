//! The data model of the Tale of Two Wastelands installer manifest.
//!
//! These records mirror the manifest's own vocabulary: named variables and
//! locations, display tags, preflight checks, file attributes, post-install
//! commands and raw asset rows. They are plain values; the installer
//! extension interprets them.

use vstd::prelude::*;

verus! {

/// A named manifest variable.
pub struct Variable {
    pub name: String,
    pub kind: u8,
    pub exclude_delimiter: bool,
    pub value: Option<String>,
}

/// A named install location, possibly an archive to create.
pub struct Location {
    pub name: String,
    pub kind: u8,
    pub value: String,
    pub create_folder: bool,
    pub archive_type: Option<u16>,
    pub archive_flags: Option<u16>,
    pub files_flags: Option<u16>,
    pub archive_compressed: Option<bool>,
}

/// A display tag with its colors.
pub struct Tag {
    pub name: String,
    pub id: u16,
    pub text_color: String,
    pub back_color: String,
}

/// A preflight check the installer runs before starting.
pub struct Check {
    pub kind: u8,
    pub inverted: bool,
    pub loc: u8,
    pub file: String,
    pub custom_message: String,
    pub checksums: Option<String>,
    pub free_size: Option<u64>,
}

/// The operation of one raw asset row.
#[derive(Clone, Copy, PartialEq, Eq, Structural, Debug)]
pub enum AssetRawKind {
    Copy,
    New,
    Patch,
    XwmaFuz,
    OggEnc2,
    AudioEnc,
}

/// The numeric code each asset operation carries in the manifest.
pub open spec fn spec_asset_kind_code(k: AssetRawKind) -> u8 {
    match k {
        AssetRawKind::Copy => 0,
        AssetRawKind::New => 1,
        AssetRawKind::Patch => 2,
        AssetRawKind::XwmaFuz => 3,
        AssetRawKind::OggEnc2 => 4,
        AssetRawKind::AudioEnc => 5,
    }
}

impl AssetRawKind {
    pub fn code(&self) -> (r: u8)
        ensures
            r == spec_asset_kind_code(*self),
    {
        match self {
            AssetRawKind::Copy => 0,
            AssetRawKind::New => 1,
            AssetRawKind::Patch => 2,
            AssetRawKind::XwmaFuz => 3,
            AssetRawKind::OggEnc2 => 4,
            AssetRawKind::AudioEnc => 5,
        }
    }

    /// The operation for a numeric code; there is none above five.
    pub fn from_code(code: u8) -> (r: Option<AssetRawKind>)
        ensures
            r matches Some(k) ==> spec_asset_kind_code(k) == code,
            r is Some <==> code < 6,
    {
        match code {
            0 => Some(AssetRawKind::Copy),
            1 => Some(AssetRawKind::New),
            2 => Some(AssetRawKind::Patch),
            3 => Some(AssetRawKind::XwmaFuz),
            4 => Some(AssetRawKind::OggEnc2),
            5 => Some(AssetRawKind::AudioEnc),
            _ => None,
        }
    }
}

/// One raw asset row: the short form, or the long form with a second path.
pub enum AssetRaw {
    A(u16, AssetRawKind, String, u8, u8, u8, String),
    B(u16, AssetRawKind, String, u8, u8, u8, String, String),
}

impl AssetRaw {
    /// The operation of this row, whichever form it takes.
    pub fn kind(&self) -> (r: AssetRawKind)
        ensures
            r == (match *self {
                AssetRaw::A(_, k, _, _, _, _, _) => k,
                AssetRaw::B(_, k, _, _, _, _, _, _) => k,
            }),
    {
        match self {
            AssetRaw::A(_, k, _, _, _, _, _) => *k,
            AssetRaw::B(_, k, _, _, _, _, _, _) => *k,
        }
    }
}

/// A recorded file attribute.
pub struct FileAttr {
    pub value: String,
    pub last_modified: String,
}

/// A command to run after installation.
pub struct PostCommand {
    pub value: String,
    pub wait: bool,
    pub hidden: bool,
}

/// A pair of lists, one for debug installs and one for release installs.
pub struct DebugAndRelease<T>(pub (Vec<T>, Vec<T>));

impl<T> DebugAndRelease<T> {
    /// The list for debug installs.
    pub fn debug(&self) -> (r: &Vec<T>)
        ensures
            r == &self.0.0,
    {
        &self.0.0
    }

    /// The list for release installs.
    pub fn release(&self) -> (r: &Vec<T>)
        ensures
            r == &self.0.1,
    {
        &self.0.1
    }
}

/// The installer's own window parameters.
pub struct Gui {
    pub files: String,
    pub width: u32,
    pub height: u32,
    pub borderless: bool,
}

} // verus!
