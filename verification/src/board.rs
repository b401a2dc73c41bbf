//! Board-level facts for the RP2350B espresso controller.
//!
//! These are properties of the hardware and the flash layout rather than of any
//! one driver, so they live here instead of being duplicated as literals across
//! the drivers and the settings store.

use vstd::prelude::*;

verus! {

/// System clock.
///
/// Every PIO clock divider is derived from this.
pub const SYS_CLK_HZ: u32 = 150_000_000;

/// Total QSPI flash size (16 MiB).
pub const FLASH_SIZE: usize = 16 * 1024 * 1024;

/// Last 64 KiB of flash, reserved for the key/value store that backs settings
/// and brew profiles.
pub const FS_RANGE: core::ops::Range<u32> = (16 * 1024 * 1024 - 64 * 1024)..(16 * 1024 * 1024);

/// Scratch/serialization buffer size for key/value operations on [`FS_RANGE`].
///
/// Settings and brew profiles share one key/value area, so any write can be
/// asked to relocate any *other* item while compacting a page. Every caller
/// must therefore size its buffer for the largest item in the whole store, not
/// just for the one it is reading or writing.
pub const FS_SCRATCH: usize = 1024;

/// The key/value store is the end of the flash.
pub proof fn law_store_is_the_last_of_flash()
    ensures
        FS_RANGE.end == FLASH_SIZE,
        FS_RANGE.end - FS_RANGE.start == 64 * 1024,
{
}

} // verus!
