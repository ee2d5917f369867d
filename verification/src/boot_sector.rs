//! Boot-sector signature check and BIOS Parameter Block extraction.

use crate::helpers::{spec_le16, spec_le32, u8_le_to_u16, u8_to_u32_le};
use vstd::prelude::*;

verus! {

/// The BIOS Parameter Block fields that volume geometry is computed
/// from, extracted once from the 512-byte boot sector.
pub struct BootSector {
    pub bytes_per_sector: u16,
    pub sectors_per_cluster: u8,
    pub reserved_sectors_count: u16,
    pub fats_count: u8,
    pub fat_size_sectors: u32,
    pub root_cluster: u32,
}

/// The fields `parse_boot_sector` extracts, at their fixed offsets.
pub open spec fn spec_parse_boot_sector(b: Seq<u8>) -> BootSector {
    BootSector {
        bytes_per_sector: spec_le16(b, 11) as u16,
        sectors_per_cluster: b[13],
        reserved_sectors_count: spec_le16(b, 14) as u16,
        fats_count: b[16],
        fat_size_sectors: spec_le32(b, 36) as u32,
        root_cluster: spec_le32(b, 44) as u32,
    }
}

/// True exactly when the sector ends with the 0x55 0xAA signature.
pub fn verify_boot_sector_signature(bs: &[u8; 512]) -> (r: bool)
    ensures
        r == (bs@[510] == 0x55 && bs@[511] == 0xAA),
{
    bs[510] == 0x55 && bs[511] == 0xAA
}

/// Extracts the BIOS Parameter Block fields from a verified boot sector.
pub fn parse_boot_sector(bs: &[u8; 512]) -> (r: BootSector)
    ensures
        r == spec_parse_boot_sector(bs@),
{
    BootSector {
        bytes_per_sector: u8_le_to_u16(&bs[11..13]),
        sectors_per_cluster: bs[13],
        reserved_sectors_count: u8_le_to_u16(&bs[14..16]),
        fats_count: bs[16],
        fat_size_sectors: u8_to_u32_le(&bs[36..40]),
        root_cluster: u8_to_u32_le(&bs[44..48]),
    }
}

} // verus!
