//! The event union that decode tasks send to the single merge consumer,
//! the icon size classes, and the store error type.

use vstd::prelude::*;
use crate::appstream::Dep11Package;
use crate::strutil::{contains_seq, contains_str};

verus! {

/// An origin-scoped sequential package identifier.
pub type Entity = u32;

/// A failure of the persistent store backend.
#[derive(Clone, Copy, PartialEq, Eq, Structural, Debug)]
pub enum StoreError {
    Backend,
}

/// The three fixed pixel-dimension classes an icon archive can carry.
#[derive(Clone, Copy, PartialEq, Eq, Structural, Debug)]
pub enum IconSize {
    Size48,
    Size64,
    Size128,
}

/// The size-class token embedded in an icon archive's filename.
pub open spec fn spec_size_token(size: IconSize) -> Seq<char> {
    match size {
        IconSize::Size48 => seq!['4', '8', 'x', '4', '8'],
        IconSize::Size64 => seq!['6', '4', 'x', '6', '4'],
        IconSize::Size128 => seq!['1', '2', '8', 'x', '1', '2', '8'],
    }
}

/// The size class an icon archive filename is classified under: the first of
/// the three fixed tokens that the name contains, or none.
pub open spec fn spec_classify_size(name: Seq<char>) -> Option<IconSize> {
    if contains_seq(name, spec_size_token(IconSize::Size48)) {
        Some(IconSize::Size48)
    } else if contains_seq(name, spec_size_token(IconSize::Size64)) {
        Some(IconSize::Size64)
    } else if contains_seq(name, spec_size_token(IconSize::Size128)) {
        Some(IconSize::Size128)
    } else {
        None
    }
}

impl IconSize {
    /// The token as text, usable as a store partition name.
    pub fn token(self) -> (r: &'static str)
        ensures
            r@ == spec_size_token(self),
    {
        proof {
            reveal_strlit("48x48");
            reveal_strlit("64x64");
            reveal_strlit("128x128");
            assert("48x48"@ =~= spec_size_token(IconSize::Size48));
            assert("64x64"@ =~= spec_size_token(IconSize::Size64));
            assert("128x128"@ =~= spec_size_token(IconSize::Size128));
        }
        match self {
            IconSize::Size48 => "48x48",
            IconSize::Size64 => "64x64",
            IconSize::Size128 => "128x128",
        }
    }

    /// Classify an icon archive by the size-class token in its filename.
    pub fn classify(name: &str) -> (r: Option<IconSize>)
        ensures
            r == spec_classify_size(name@),
    {
        proof {
            reveal_strlit("48x48");
            reveal_strlit("64x64");
            reveal_strlit("128x128");
            assert("48x48"@ =~= spec_size_token(IconSize::Size48));
            assert("64x64"@ =~= spec_size_token(IconSize::Size64));
            assert("128x128"@ =~= spec_size_token(IconSize::Size128));
        }
        if contains_str(name, "48x48") {
            Some(IconSize::Size48)
        } else if contains_str(name, "64x64") {
            Some(IconSize::Size64)
        } else if contains_str(name, "128x128") {
            Some(IconSize::Size128)
        } else {
            None
        }
    }
}

/// The filename substring that identifies a components-metadata archive.
pub open spec fn spec_components_token() -> Seq<char> {
    "dep11_Components"@
}

/// The filename substring that identifies an icon archive.
pub open spec fn spec_icons_token() -> Seq<char> {
    "dep11_icons"@
}

/// Whether a filename names a components-metadata archive.
pub fn is_components_archive(name: &str) -> (r: bool)
    ensures
        r == contains_seq(name@, spec_components_token()),
{
    contains_str(name, "dep11_Components")
}

/// Whether a filename names an icon archive.
pub fn is_icons_archive(name: &str) -> (r: bool)
    ensures
        r == contains_seq(name@, spec_icons_token()),
{
    contains_str(name, "dep11_icons")
}

/// One tagged event on the shared channel between decode tasks and the merge
/// consumer: a decoded package, an extracted icon blob, or a media base URL.
pub enum PackageEvent {
    Dep11 { origin: String, info: Dep11Package },
    Dep11Icon { size: IconSize, name: String, buffer: Vec<u8> },
    MediaUrl { origin: String, base_url: String },
}

} // verus!
