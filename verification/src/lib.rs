//! A read-only navigator for FAT32 disk images.
//!
//! The navigator works over an in-memory copy of the disk image (a byte
//! slice) and writes everything it would show to a caller-supplied byte
//! sink, so the whole engine is ordinary verified code: boot-sector
//! parsing, FAT chain walking, directory iteration, short-name decoding
//! and path resolution.  A thin host layer owns the real file handle and
//! the terminal.

pub mod boot_sector;
pub mod cli;
pub mod dir;
pub mod disk;
pub mod fat;
pub mod helpers;
pub mod resolve;
