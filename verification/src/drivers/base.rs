//! The driver capability model.
//!
//! Every driver offers the generic contract [`Driver`]: a name, the
//! interrupts it owns, and a way to claim an interrupt. A driver also
//! belongs to one category of device and offers that category's
//! contract. A registry keeps drivers behind the generic contract and
//! asks each for its category handle, which is tagged with the category.

use std::sync::Arc;
use vstd::prelude::*;

verus! {

/// A real time clock.
pub struct RtcHandle {
    pub driver: Arc<dyn RtcDriver>,
}

/// A block device.
pub struct BlkHandle {
    pub driver: Arc<dyn BlkDriver>,
}

/// A network interface card.
pub struct NetHandle {
    pub driver: Arc<dyn NetDriver>,
}

/// An input device.
pub struct InputHandle {
    pub driver: Arc<dyn InputDriver>,
}

/// An interrupt controller.
pub struct IntHandle {
    pub driver: Arc<dyn IntDriver>,
}

/// A serial line.
pub struct UartHandle {
    pub driver: Arc<dyn UartDriver>,
}

/// Device Type Enumerator: the handle of a driver, tagged with its
/// category.
pub enum DeviceType {
    RTC(RtcHandle),
    BLOCK(BlkHandle),
    NET(NetHandle),
    INPUT(InputHandle),
    INT(IntHandle),
    UART(UartHandle),
    /// No device.
    NoDevice,
}

/// Driver Trait
pub trait Driver: Send + Sync {
    /// Get driver name
    fn get_id(&self) -> &str;

    /// Get interrupt numbers associated with the driver. A driver
    /// that owns none lists none.
    fn interrupts(&self) -> (irqs: &[u32])
        ensures
            !self.owns_interrupts() ==> irqs@.len() == 0,
    {
        &[]
    }

    /// Trying to handle an interrupt: whether the driver claims it. A
    /// driver that claims none never does.
    fn try_handle_interrupt(&self, _irq: u32) -> (claimed: bool)
        ensures
            !self.claims_interrupts() ==> !claimed,
    {
        false
    }

    /// Whether the driver owns interrupt numbers. A driver that does
    /// not say otherwise owns none.
    open spec fn owns_interrupts(&self) -> bool {
        false
    }

    /// Whether the driver claims interrupts. A driver that does not say
    /// otherwise claims none.
    open spec fn claims_interrupts(&self) -> bool {
        false
    }

    /// Get device type and self pointer.
    fn get_device(self: Arc<Self>) -> DeviceType;
}

/// Real time controller driver.
pub trait RtcDriver {
    fn read_timestamp(&self) -> u64;

    fn read(&self) -> u64;
}

/// Block device driver trait.
pub trait BlkDriver {
    fn read_blocks(&self, block_id: usize, buf: &mut [u8]);

    fn write_blocks(&self, block_id: usize, buf: &[u8]);

    /// The capacity of the device in bytes. A driver that reports none
    /// answers with zero.
    fn capacity(&self) -> (bytes: usize)
        ensures
            !self.reports_capacity() ==> bytes == 0,
    {
        0
    }

    /// Whether the driver reports the capacity of its device. A driver
    /// that does not say otherwise reports none.
    open spec fn reports_capacity(&self) -> bool {
        false
    }
}

/// Why a packet could not be had.
#[derive(Clone, Copy, Debug, PartialEq, Eq, Structural)]
pub enum NetError {
    /// There is no packet to receive.
    NoData,
}

/// Net Interface Card
pub trait NetDriver {
    fn recv(&self, buf: &mut [u8]) -> Result<usize, NetError>;

    fn send(&self, buf: &[u8]) -> Result<(), NetError>;
}

/// Interrupt controller driver trait.
pub trait IntDriver {
    /// Routes the interrupt `irq` to the driver with the name `driver`.
    fn register_irq(&self, irq: u32, driver: &str);
}

/// Input driver Trait.
pub trait InputDriver {
    fn read_event(&self) -> u64;

    fn handle_irq(&self);

    fn is_empty(&self) -> bool;
}

/// Uart driver trait.
pub trait UartDriver {
    fn put(&self, c: u8);

    fn get(&self) -> Option<u8>;
}

/// Default implementation for the driver trait: the placeholder for a
/// device that no driver was found for.
pub struct UnsupportedDriver;

/// Implement the default driver implementation
impl Driver for UnsupportedDriver {
    fn get_id(&self) -> (id: &str)
        ensures
            id@ == "unsupported-driver"@,
    {
        "unsupported-driver"
    }

    /// It owns no interrupt.
    fn interrupts(&self) -> (irqs: &[u32])
        ensures
            irqs@.len() == 0,
    {
        &[]
    }

    /// It claims no interrupt.
    fn try_handle_interrupt(&self, _irq: u32) -> (claimed: bool)
        ensures
            !claimed,
    {
        false
    }

    fn get_device(self: Arc<Self>) -> (device: DeviceType)
        ensures
            device is NoDevice,
    {
        DeviceType::NoDevice
    }
}

/// Driver page alloc interface.
pub trait DAlloc {
    /// The virtual address of the physical address `paddr`.
    spec fn virt_of(paddr: usize) -> usize;

    /// The physical address of the virtual address `vaddr`.
    spec fn phys_of(vaddr: usize) -> usize;

    /// This function allocate the memory, and the return value is physical memory.
    fn alloc_pages(pages: usize) -> usize;

    /// Deallocate the memory
    fn dealloc(paddr: usize, pages: usize) -> i32;

    /// Convert physical address to virtual address.
    fn phys_to_virt(paddr: usize) -> (vaddr: usize)
        ensures
            vaddr == Self::virt_of(paddr),
    ;

    /// Convert virtual address to physical address.
    fn virt_to_phys(vaddr: usize) -> (paddr: usize)
        ensures
            paddr == Self::phys_of(vaddr),
    ;
}

} // verus!
