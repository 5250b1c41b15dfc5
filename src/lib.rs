//! Locates the compressed keyboard-layout document embedded in a host binary,
//! remaps its letter keys from an override layout, and refits the recompressed
//! document into exactly the byte budget of the region it came from.

use vstd::prelude::*;

pub mod bytes;
pub mod frame;
pub mod json;
pub mod layout;
pub mod mapping;
pub mod score;
pub mod scan;
pub mod state;
pub mod txn;

verus! {

/// The failure conditions of the patch engine.
#[derive(Debug, Clone, Copy, PartialEq, Eq, Structural)]
pub enum PatchError {
    /// A read or a window reaches past the end of the buffer.
    OutOfRange,
    /// A padding frame cannot be built for the requested size.
    BadPaddingSize,
    /// No effort level fits the document into the capacity.
    CapacityExceeded,
    /// The document has no `alphabetic` array of rows of the required count.
    NotLayout,
    /// A key that should carry glyphs is not an object.
    KeyNotObject,
    /// A key that should carry glyphs is a special key.
    SpecialKey,
    /// A key has no `default[0]` text.
    MissingDefault,
    /// A glyph is not exactly one character.
    NotOneChar,
    /// A row is not an array, or holds fewer keys than the position table needs.
    RowTooShort,
    /// The letter mapping has no entry for a letter the position table needs.
    MissingLetter,
    /// The locale has no position table or signature.
    UnsupportedLocale,
    /// Neither mapping policy touched any key.
    NothingTouched,
    /// No compressed region in the artifact decodes to a layout document.
    NoCandidates,
    /// The capacity recorded for a region does not match its header.
    CapMismatch,
    /// The payload window does not open with the zstd frame magic.
    MissingMagic,
    /// The payload window does not decompress.
    DecodeFailed,
    /// The payload read back differs from the one intended.
    VerifyMismatch,
}

} // verus!
