//! The features of a block device.
use vstd::prelude::*;

verus! {

/// Device supports request barriers. (legacy)
pub const BARRIER: u64 = 0x1;

/// Maximum size of any single segment is in `size_max`.
pub const SIZE_MAX: u64 = 0x2;

/// Maximum number of segments in a request is in `seg_max`.
pub const SEG_MAX: u64 = 0x4;

/// Disk-style geometry specified in geometry.
pub const GEOMETRY: u64 = 0x10;

/// Device is read-only.
pub const RO: u64 = 0x20;

/// Block size of disk is in `blk_size`.
pub const BLK_SIZE: u64 = 0x40;

/// Device supports scsi packet commands. (legacy)
pub const SCSI: u64 = 0x80;

/// Cache flush command support.
pub const FLUSH: u64 = 0x200;

/// Device exports information on optimal I/O alignment.
pub const TOPOLOGY: u64 = 0x400;

/// Device can toggle its cache between writeback and writethrough modes.
pub const CONFIG_WCE: u64 = 0x800;

/// Device can support discard command, maximum discard sectors size in `max_discard_sectors` and
/// maximum discard segment number in `max_discard_seg`.
pub const DISCARD: u64 = 0x2000;

/// Device can support write zeroes command, maximum write zeroes sectors size in
/// `max_write_zeroes_sectors` and maximum write zeroes segment number in `max_write_zeroes_seg`.
pub const WRITE_ZEROES: u64 = 0x4000;

// device independent

/// (legacy)
pub const NOTIFY_ON_EMPTY: u64 = 0x100_0000;

/// (legacy)
pub const ANY_LAYOUT: u64 = 0x800_0000;

pub const RING_INDIRECT_DESC: u64 = 0x1000_0000;

pub const RING_EVENT_IDX: u64 = 0x2000_0000;

/// (legacy)
pub const UNUSED: u64 = 0x4000_0000;

/// Detects legacy devices.
pub const VERSION_1: u64 = 0x1_0000_0000;

// the following since virtio v1.1

pub const ACCESS_PLATFORM: u64 = 0x2_0000_0000;

pub const RING_PACKED: u64 = 0x4_0000_0000;

pub const IN_ORDER: u64 = 0x8_0000_0000;

pub const ORDER_PLATFORM: u64 = 0x10_0000_0000;

pub const SR_IOV: u64 = 0x20_0000_0000;

pub const NOTIFICATION_DATA: u64 = 0x40_0000_0000;

/// Every feature that has a name.
pub const ALL: u64 = BARRIER | SIZE_MAX | SEG_MAX | GEOMETRY | RO | BLK_SIZE | SCSI | FLUSH
    | TOPOLOGY | CONFIG_WCE | DISCARD | WRITE_ZEROES | NOTIFY_ON_EMPTY | ANY_LAYOUT
    | RING_INDIRECT_DESC | RING_EVENT_IDX | UNUSED | VERSION_1 | ACCESS_PLATFORM | RING_PACKED
    | IN_ORDER | ORDER_PLATFORM | SR_IOV | NOTIFICATION_DATA;

/// A set of features.
#[derive(Debug, Clone, Copy, PartialEq, Eq, Structural)]
pub struct BlkFeature {
    bits: u64,
}

impl View for BlkFeature {
    type V = u64;

    closed spec fn view(&self) -> u64 {
        self.bits
    }
}

impl BlkFeature {
    /// The features among the given bits. Bits without a name are dropped.
    pub fn from_bits_truncate(bits: u64) -> (features: Self)
        ensures
            features@ == bits & ALL,
    {
        BlkFeature { bits: bits & ALL }
    }

    /// No feature.
    pub fn empty() -> (features: Self)
        ensures
            features@ == 0,
    {
        BlkFeature { bits: 0 }
    }

    /// The features of both sets.
    pub fn intersection(self, other: Self) -> (features: Self)
        ensures
            features@ == self@ & other@,
    {
        BlkFeature { bits: self.bits & other.bits }
    }

    /// The bits of the features.
    pub fn bits(&self) -> (bits: u64)
        ensures
            bits == self@,
    {
        self.bits
    }

    /// What the driver accepts of the features that a device offers: it supports none.
    pub fn negotiate(offered: u64) -> (accepted: u64)
        ensures
            accepted == 0,
    {
        let features = BlkFeature::from_bits_truncate(offered);
        // negotiate these flags only
        let supported_features = BlkFeature::empty();
        let ghost known = features@;
        assert(known & 0u64 == 0u64) by (bit_vector);
        features.intersection(supported_features).bits()
    }
}

/// Each feature has its bit, and all features together have these bits and no others.
pub proof fn law_feature_bits()
    ensures
        BARRIER == 1u64 << 0u64,
        SIZE_MAX == 1u64 << 1u64,
        SEG_MAX == 1u64 << 2u64,
        GEOMETRY == 1u64 << 4u64,
        RO == 1u64 << 5u64,
        BLK_SIZE == 1u64 << 6u64,
        SCSI == 1u64 << 7u64,
        FLUSH == 1u64 << 9u64,
        TOPOLOGY == 1u64 << 10u64,
        CONFIG_WCE == 1u64 << 11u64,
        DISCARD == 1u64 << 13u64,
        WRITE_ZEROES == 1u64 << 14u64,
        NOTIFY_ON_EMPTY == 1u64 << 24u64,
        ANY_LAYOUT == 1u64 << 27u64,
        RING_INDIRECT_DESC == 1u64 << 28u64,
        RING_EVENT_IDX == 1u64 << 29u64,
        UNUSED == 1u64 << 30u64,
        VERSION_1 == 1u64 << 32u64,
        ACCESS_PLATFORM == 1u64 << 33u64,
        RING_PACKED == 1u64 << 34u64,
        IN_ORDER == 1u64 << 35u64,
        ORDER_PLATFORM == 1u64 << 36u64,
        SR_IOV == 1u64 << 37u64,
        NOTIFICATION_DATA == 1u64 << 38u64,
        ALL == 0x7f_7900_6ef7,
{
    assert(0x1u64 == 1u64 << 0u64
        && 0x2u64 == 1u64 << 1u64
        && 0x4u64 == 1u64 << 2u64
        && 0x10u64 == 1u64 << 4u64
        && 0x20u64 == 1u64 << 5u64
        && 0x40u64 == 1u64 << 6u64
        && 0x80u64 == 1u64 << 7u64
        && 0x200u64 == 1u64 << 9u64
        && 0x400u64 == 1u64 << 10u64
        && 0x800u64 == 1u64 << 11u64
        && 0x2000u64 == 1u64 << 13u64
        && 0x4000u64 == 1u64 << 14u64
        && 0x100_0000u64 == 1u64 << 24u64
        && 0x800_0000u64 == 1u64 << 27u64
        && 0x1000_0000u64 == 1u64 << 28u64
        && 0x2000_0000u64 == 1u64 << 29u64
        && 0x4000_0000u64 == 1u64 << 30u64
        && 0x1_0000_0000u64 == 1u64 << 32u64
        && 0x2_0000_0000u64 == 1u64 << 33u64
        && 0x4_0000_0000u64 == 1u64 << 34u64
        && 0x8_0000_0000u64 == 1u64 << 35u64
        && 0x10_0000_0000u64 == 1u64 << 36u64
        && 0x20_0000_0000u64 == 1u64 << 37u64
        && 0x40_0000_0000u64 == 1u64 << 38u64) by (bit_vector);
    assert(0x1u64 | 0x2u64 | 0x4u64 | 0x10u64 | 0x20u64 | 0x40u64 | 0x80u64 | 0x200u64
        | 0x400u64 | 0x800u64 | 0x2000u64 | 0x4000u64 | 0x100_0000u64 | 0x800_0000u64
        | 0x1000_0000u64 | 0x2000_0000u64 | 0x4000_0000u64 | 0x1_0000_0000u64 | 0x2_0000_0000u64
        | 0x4_0000_0000u64 | 0x8_0000_0000u64 | 0x10_0000_0000u64 | 0x20_0000_0000u64
        | 0x40_0000_0000u64
        == 0x7f_7900_6ef7u64) by (bit_vector);
}

} // verus!
