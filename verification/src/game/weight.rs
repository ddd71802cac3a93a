//! The weight of each reason. The numbers are an ordering, not measurements.
//!
//! Every weight is positive, so a candidate scores zero exactly when it has no
//! reasons.

use vstd::prelude::*;

verus! {

/// The image's own import table names a graphics API.
pub const RENDERER_IMPORT: i32 = 100;

/// A subdirectory named `<stem>_Data` sits beside `<stem>.exe`.
pub const UNITY_DATA: i32 = 100;

/// The image delay-loads a graphics API.
pub const RENDERER_DELAY_IMPORT: i32 = 80;

/// A library beside the image, which the image imports, reaches a graphics
/// API.
pub const RENDERER_INDIRECT: i32 = 70;

/// The image sits in `Binaries/Win64` or `Binaries/Win32`.
pub const UNREAL_BINARIES: i32 = 55;

/// The stem ends `-Shipping`, Unreal's release build.
pub const SHIPPING_SUFFIX: i32 = 50;

/// The stem and the game's name are the same word.
pub const NAME_EXACT: i32 = 30;

/// One of the stem and the game's name begins with the other.
pub const NAME_PARTIAL: i32 = 15;

/// The image's own directory ships graphics libraries.
pub const SHIPS_GRAPHICS_LIBRARIES: i32 = 15;

} // verus!
