use std::marker::PhantomData;
use std::sync::Arc;

use quados::drivers::base::{
    BlkDriver, BlkHandle, DAlloc, DeviceType, Driver, NetError, UnsupportedDriver,
};
use quados::drivers::sdcard::{
    CommandType, SUPPORT_PCI_DEVICE, SUPPORT_PCI_VENDOR, XFER_BLK_CNT_EN, XFER_CMD_CRC_CHK_EN,
    XFER_CMD_IDX_CHK_EN, XFER_DATA_PRESENT, XFER_DAT_XFER_READ, XFER_DMA_EN, XFER_MULTI_BLK_EN,
    XFER_RESP_L136, XFER_RESP_L48,
};
use quados::drivers::virtio::HalImpl;
use quados::utils::{overlay_into, same_str, AlignedAs};

#[test]
fn unsupported_driver_is_a_placeholder() {
    let driver = UnsupportedDriver;
    assert_eq!(driver.get_id(), "unsupported-driver");
    assert!(driver.interrupts().is_empty());
    assert!(!driver.try_handle_interrupt(0));
    assert!(!driver.try_handle_interrupt(u32::MAX));
    assert!(matches!(Arc::new(driver).get_device(), DeviceType::NoDevice));
}

struct Disk {
    irqs: Vec<u32>,
}

impl Driver for Disk {
    fn get_id(&self) -> &str {
        "disk"
    }

    fn owns_interrupts(&self) -> bool {
        true
    }

    fn interrupts(&self) -> &[u32] {
        &self.irqs
    }

    fn claims_interrupts(&self) -> bool {
        true
    }

    fn try_handle_interrupt(&self, irq: u32) -> bool {
        self.irqs.contains(&irq)
    }

    fn get_device(self: Arc<Self>) -> DeviceType {
        DeviceType::BLOCK(BlkHandle { driver: self })
    }
}

impl BlkDriver for Disk {
    fn read_blocks(&self, block_id: usize, buf: &mut [u8]) {
        buf.fill(block_id as u8);
    }

    fn write_blocks(&self, _block_id: usize, _buf: &[u8]) {}

    fn reports_capacity(&self) -> bool {
        true
    }

    fn capacity(&self) -> usize {
        8 * 0x200
    }
}

struct Quiet;

impl Driver for Quiet {
    fn get_id(&self) -> &str {
        "quiet"
    }

    fn get_device(self: Arc<Self>) -> DeviceType {
        DeviceType::BLOCK(BlkHandle { driver: self })
    }
}

impl BlkDriver for Quiet {
    fn read_blocks(&self, _block_id: usize, _buf: &mut [u8]) {}

    fn write_blocks(&self, _block_id: usize, _buf: &[u8]) {}
}

#[test]
fn a_driver_owns_and_claims_nothing_unless_it_says_so() {
    let driver = Arc::new(Quiet);
    assert!(driver.interrupts().is_empty());
    assert!(!driver.try_handle_interrupt(3));
    assert_eq!(driver.capacity(), 0);
    assert!(matches!(driver.get_device(), DeviceType::BLOCK(_)));
}

#[test]
fn a_driver_is_reached_through_its_category() {
    let driver: Arc<dyn Driver> = Arc::new(Disk { irqs: vec![3, 9] });
    assert_eq!(driver.get_id(), "disk");
    assert_eq!(driver.interrupts(), &[3, 9]);
    assert!(driver.try_handle_interrupt(9));
    assert!(!driver.try_handle_interrupt(4));
    match driver.get_device() {
        DeviceType::BLOCK(handle) => {
            assert_eq!(handle.driver.capacity(), 4096);
            let mut block = [0u8; 4];
            handle.driver.read_blocks(7, &mut block);
            assert_eq!(block, [7; 4]);
        }
        _ => panic!("expected a block device"),
    }
}

#[test]
fn net_error_tells_no_data() {
    let e: Result<usize, NetError> = Err(NetError::NoData);
    assert_eq!(e, Err(NetError::NoData));
}

#[test]
fn command_number_is_its_payload() {
    assert_eq!(CommandType::CMD(0).num(), 0);
    assert_eq!(CommandType::CMD(17).num(), 17);
    assert_eq!(CommandType::ACMD(41).num(), 41);
    assert_eq!(CommandType::ACMD(255).num(), 255);
}

#[test]
fn read_commands_have_their_flags() {
    assert_eq!(CommandType::CMD(17).flags(), 0x20_0010);
    assert_eq!(CommandType::CMD(18).flags(), 0x20_0032);
    assert_eq!(CommandType::CMD(24).flags(), 0);
    assert_eq!(CommandType::ACMD(17).flags(), 0);
    assert_eq!(CommandType::ACMD(18).flags(), 0);
    assert_eq!(CommandType::CMD(0).flags(), 0);
}

#[test]
fn flag_bits_match_the_register_layout() {
    assert_eq!(XFER_DMA_EN, 1 << 0);
    assert_eq!(XFER_BLK_CNT_EN, 1 << 1);
    assert_eq!(XFER_DAT_XFER_READ, 1 << 4);
    assert_eq!(XFER_MULTI_BLK_EN, 1 << 5);
    assert_eq!(XFER_RESP_L136, 1 << 16);
    assert_eq!(XFER_RESP_L48, 2 << 16);
    assert_eq!(XFER_CMD_CRC_CHK_EN, 1 << 19);
    assert_eq!(XFER_CMD_IDX_CHK_EN, 1 << 20);
    assert_eq!(XFER_DATA_PRESENT, 1 << 21);
    assert_eq!((SUPPORT_PCI_VENDOR, SUPPORT_PCI_DEVICE), (0x1b36, 0x0007));
}

#[test]
fn transfer_word_combines_index_and_flags() {
    // CMD0: no response, no data.
    assert_eq!(CommandType::CMD(0).xfer_command(0, false), 0);
    assert_eq!(CommandType::CMD(0).xfer_command(0, true), 1);
    // CMD8: a 48 bit response with checksum.
    assert_eq!(CommandType::CMD(8).xfer_command(0, false), (8 << 24) | 0x0a_0000);
    // CMD2 and CMD9: a 136 bit response with checksum.
    assert_eq!(CommandType::CMD(2).xfer_command(0, false), (2 << 24) | 0x09_0000);
    assert_eq!(CommandType::CMD(9).xfer_command(0, false), (9 << 24) | 0x09_0000);
    // CMD3: checksum and index are checked.
    assert_eq!(CommandType::CMD(3).xfer_command(0, false), (3 << 24) | 0x1a_0000);
    // ACMD41 and CMD58: a 48 bit response without checks.
    assert_eq!(CommandType::ACMD(41).xfer_command(0, false), (41 << 24) | 0x02_0000);
    assert_eq!(CommandType::CMD(58).xfer_command(0, false), (58 << 24) | 0x02_0000);
    // CMD41 is another command than ACMD41.
    assert_eq!(CommandType::CMD(41).xfer_command(0, false), 41 << 24);
    // CMD18 with eight blocks by DMA: everything.
    assert_eq!(
        CommandType::CMD(18).xfer_command(8, true),
        (18 << 24) | 0x2a_0000 | 0x33
    );
    // One block: the count is in use, but not the multiple block mode.
    assert_eq!(CommandType::CMD(17).xfer_command(1, false), (17 << 24) | 0x2a_0000 | 0x12);
    // CMD24 writes: data without the read direction.
    assert_eq!(CommandType::CMD(24).xfer_command(1, false), (24 << 24) | 0x2a_0000 | 0x02);
    assert_eq!(CommandType::ACMD(51).xfer_command(0, false), (51 << 24) | 0x2a_0000 | 0x10);
    // The index has six bits.
    assert_eq!(CommandType::CMD(64).xfer_command(0, false), 0);
    assert_eq!(CommandType::CMD(0xff).xfer_command(0, false), 0x3f << 24);
}

struct Identity;

impl DAlloc for Identity {
    fn virt_of(paddr: usize) -> usize {
        paddr | 0xffff_0000_0000_0000
    }

    fn phys_of(vaddr: usize) -> usize {
        vaddr & !0xffff_0000_0000_0000
    }

    fn alloc_pages(pages: usize) -> usize {
        pages * 0x1000
    }

    fn dealloc(paddr: usize, pages: usize) -> i32 {
        (paddr / 0x1000 + pages) as i32
    }

    fn phys_to_virt(paddr: usize) -> usize {
        Self::virt_of(paddr)
    }

    fn virt_to_phys(vaddr: usize) -> usize {
        Self::phys_of(vaddr)
    }
}

struct Null;

impl DAlloc for Null {
    fn virt_of(paddr: usize) -> usize {
        paddr
    }

    fn phys_of(vaddr: usize) -> usize {
        vaddr
    }

    fn alloc_pages(_pages: usize) -> usize {
        0
    }

    fn dealloc(_paddr: usize, _pages: usize) -> i32 {
        0
    }

    fn phys_to_virt(paddr: usize) -> usize {
        paddr
    }

    fn virt_to_phys(vaddr: usize) -> usize {
        vaddr
    }
}

#[test]
fn hal_serves_from_the_driver_allocator() {
    let _marker: HalImpl<Identity> = HalImpl(PhantomData);
    assert_eq!(HalImpl::<Identity>::dma_alloc(3), Some((0x3000, 0xffff_0000_0000_3000)));
    assert_eq!(HalImpl::<Identity>::dma_dealloc(0x3000, 2), 5);
    assert_eq!(
        HalImpl::<Identity>::mmio_phys_to_virt(0x1000_0000),
        Some(0xffff_0000_1000_0000)
    );
    assert_eq!(HalImpl::<Identity>::share(0xffff_0000_0000_4321), 0x4321);
}

#[test]
fn hal_hands_out_no_null_address() {
    assert_eq!(HalImpl::<Null>::dma_alloc(1), None);
    assert_eq!(HalImpl::<Null>::mmio_phys_to_virt(0), None);
    assert_eq!(HalImpl::<Null>::mmio_phys_to_virt(8), Some(8));
}

#[test]
fn aligned_data_is_reached_through_its_field() {
    let aligned: AlignedAs<u128, [u8; 4]> = AlignedAs { _align: [], data: [1, 2, 3, 4] };
    assert_eq!(aligned.data, [1, 2, 3, 4]);
    assert_eq!(std::mem::align_of_val(&aligned), 16);
}

#[test]
fn strings_compare_by_content() {
    assert!(same_str("", ""));
    assert!(same_str("abc", "abc"));
    assert!(!same_str("abc", "abd"));
    assert!(!same_str("abc", "ab"));
    assert!(same_str("日本", "日本"));
}

#[test]
fn overlay_replaces_a_range() {
    let mut mem = vec![0u8; 8];
    overlay_into(&mut mem, 2, b"abc");
    assert_eq!(mem, b"\0\0abc\0\0\0");
    overlay_into(&mut mem, 5, b"xyz");
    assert_eq!(mem, b"\0\0abcxyz");
    overlay_into(&mut mem, 8, b"");
    assert_eq!(mem, b"\0\0abcxyz");
}
