//! Repair of a GUID Partition Table after a smaller disk image was written to a
//! larger device, and a bounded cursor over one partition of such a device.
//!
//! Everything here is pure computation: the caller performs the device I/O and
//! hands the bytes it read (and the sizes it learned) to these functions.

pub mod error;
pub mod field;
pub mod header;
pub mod cursor;
pub mod sector;
