use virtio_blk::error::Error;
use virtio_blk::features::{BlkFeature, ALL, FLUSH, RO, VERSION_1};
use virtio_blk::flags::{DescFlags, INDIRECT, NEXT, WRITE};
use virtio_blk::layout::{align_up, QueuePlan, QueueRegisters, VirtQueueLayout, PAGE_SIZE};

#[test]
fn align_up_rounds_to_pages() {
    assert_eq!(align_up(0), 0);
    assert_eq!(align_up(1), 4096);
    assert_eq!(align_up(4095), 4096);
    assert_eq!(align_up(4096), 4096);
    assert_eq!(align_up(4097), 8192);
}

#[test]
fn layout_of_sixteen_descriptors() {
    let layout = VirtQueueLayout::new(16);
    assert_eq!(layout, VirtQueueLayout { avail_offset: 256, used_offset: 4096, size: 8192 });
}

#[test]
fn layout_of_many_descriptors() {
    let layout = VirtQueueLayout::new(256);
    assert_eq!(layout, VirtQueueLayout { avail_offset: 4096, used_offset: 8192, size: 12288 });
    let layout = VirtQueueLayout::new(32768);
    assert_eq!(layout.avail_offset, 524288);
    assert_eq!(layout.used_offset, 593920);
    assert_eq!(layout.size, 593920 + 266240);
}

#[test]
fn layout_parts_do_not_overlap() {
    for shift in 0..16 {
        let n = 1usize << shift;
        let layout = VirtQueueLayout::new(n as u16);
        assert!(16 * n <= layout.avail_offset);
        assert!(layout.avail_offset + 6 + 2 * n <= layout.used_offset);
        assert_eq!(layout.used_offset % PAGE_SIZE, 0);
        assert!(layout.used_offset + 6 + 8 * n <= layout.size);
        assert_eq!(layout.size % PAGE_SIZE, 0);
    }
}

#[test]
fn plan_of_a_queue() {
    let plan = QueuePlan::new(false, 1024, 1, 16).unwrap();
    assert_eq!(plan.queue_idx, 1);
    assert_eq!(plan.queue_size, 16);
    assert_eq!(plan.layout, VirtQueueLayout::new(16));
    assert_eq!(plan.pages(), 2);
    let registers = plan.registers(0x80000);
    let expected = QueueRegisters { queue_idx: 1, size: 16, align: 4096, pfn: 0x80000 };
    assert_eq!(registers, expected);
}

#[test]
fn plan_is_refused() {
    assert_eq!(QueuePlan::new(true, 1024, 0, 16), Err(Error::AlreadyUsed));
    assert_eq!(QueuePlan::new(false, 8, 0, 16), Err(Error::InvalidParam));
    assert_eq!(QueuePlan::new(false, 1024, 0, 0), Err(Error::InvalidParam));
    assert_eq!(QueuePlan::new(false, 1024, 0, 24), Err(Error::InvalidParam));
    assert!(QueuePlan::new(false, 16, 0, 16).is_ok());
    assert!(QueuePlan::new(false, 1, 0, 1).is_ok());
}

#[test]
fn descriptor_flags() {
    let both = DescFlags::new(NEXT).union(DescFlags::new(WRITE));
    assert_eq!(both.bits, 3);
    assert!(both.contains(DescFlags::new(NEXT)));
    assert!(!both.contains(DescFlags::new(INDIRECT)));
    let mut flags = both;
    flags.remove(DescFlags::new(NEXT));
    assert_eq!(flags.bits, 2);
    flags.remove(DescFlags::new(NEXT));
    assert_eq!(flags.bits, 2);
}

#[test]
fn features_without_a_name_are_dropped() {
    assert_eq!(ALL, 0x7f_7900_6ef7);
    assert_eq!(BlkFeature::from_bits_truncate(u64::MAX).bits(), ALL);
    assert_eq!(BlkFeature::from_bits_truncate(0x8 | RO).bits(), RO);
    let known = BlkFeature::from_bits_truncate(FLUSH | RO);
    let other = BlkFeature::from_bits_truncate(FLUSH | VERSION_1);
    assert_eq!(known.intersection(other).bits(), FLUSH);
}

#[test]
fn no_feature_is_negotiated() {
    assert_eq!(BlkFeature::negotiate(0), 0);
    assert_eq!(BlkFeature::negotiate(FLUSH | VERSION_1), 0);
    assert_eq!(BlkFeature::negotiate(u64::MAX), 0);
}
