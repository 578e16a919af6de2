//! Device drivers: ids, device descriptions, driver states and errors, and
//! the traits a driver implements.
use vstd::prelude::*;

verus! {

/// The id of a driver; zero is no driver.
#[derive(Debug, Clone, Copy, PartialEq, Eq, Structural, Hash)]
pub struct DriverId(pub u32);

impl DriverId {
    #[allow(non_snake_case)]
    pub fn INVALID() -> (r: DriverId)
        ensures
            r.0 == 0,
    {
        DriverId(0)
    }

    pub fn new(id: u32) -> (r: DriverId)
        ensures
            r.0 == id,
    {
        DriverId(id)
    }

    pub fn is_valid(&self) -> (r: bool)
        ensures
            r == (self.0 != 0),
    {
        self.0 != 0
    }
}

/// The kind of a device.
#[derive(Debug, Clone, Copy, PartialEq, Eq, Structural)]
pub enum DeviceType {
    Block,
    Network,
    Display,
    Input,
    Audio,
    Serial,
    Usb,
    Virtio,
    Custom,
}

/// The code of a device kind.
pub open spec fn device_type_code(t: DeviceType) -> u8 {
    match t {
        DeviceType::Block => 0,
        DeviceType::Network => 1,
        DeviceType::Display => 2,
        DeviceType::Input => 3,
        DeviceType::Audio => 4,
        DeviceType::Serial => 5,
        DeviceType::Usb => 6,
        DeviceType::Virtio => 7,
        DeviceType::Custom => 255,
    }
}

impl DeviceType {
    /// The code of the kind; custom devices are 255.
    pub fn as_u8(&self) -> (r: u8)
        ensures
            r == device_type_code(*self),
    {
        match self {
            DeviceType::Block => 0,
            DeviceType::Network => 1,
            DeviceType::Display => 2,
            DeviceType::Input => 3,
            DeviceType::Audio => 4,
            DeviceType::Serial => 5,
            DeviceType::Usb => 6,
            DeviceType::Virtio => 7,
            DeviceType::Custom => 255,
        }
    }
}

/// What a driver knows of its device.
#[derive(Debug, Clone)]
pub struct DeviceInfo {
    pub name: &'static str,
    pub device_type: DeviceType,
    pub vendor_id: u16,
    pub device_id: u16,
    pub irq: Option<u32>,
    pub mmio_base: Option<u64>,
    pub mmio_size: Option<usize>,
}

/// The life stage of a driver.
#[derive(Debug, Clone, Copy, PartialEq, Eq, Structural)]
pub enum DriverState {
    Uninitialized,
    Initializing,
    Running,
    Suspended,
    Error,
    Removed,
}

/// An error of a driver.
#[derive(Debug, Clone, Copy, PartialEq, Eq, Structural)]
pub enum DriverError {
    NotInitialized,
    AlreadyInitialized,
    NotFound,
    Busy,
    Timeout,
    InvalidArgument,
    IoError,
    NoMemory,
    Unsupported,
    PermissionDenied,
}

/// The text of a driver error.
pub open spec fn driver_error_text(e: DriverError) -> Seq<char> {
    match e {
        DriverError::NotInitialized => "driver not initialized"@,
        DriverError::AlreadyInitialized => "driver already initialized"@,
        DriverError::NotFound => "device not found"@,
        DriverError::Busy => "device busy"@,
        DriverError::Timeout => "operation timed out"@,
        DriverError::InvalidArgument => "invalid argument"@,
        DriverError::IoError => "I/O error"@,
        DriverError::NoMemory => "out of memory"@,
        DriverError::Unsupported => "operation unsupported"@,
        DriverError::PermissionDenied => "permission denied"@,
    }
}

impl DriverError {
    /// The text of the error.
    pub fn message(&self) -> (r: &'static str)
        ensures
            r@ == driver_error_text(*self),
    {
        match self {
            DriverError::NotInitialized => "driver not initialized",
            DriverError::AlreadyInitialized => "driver already initialized",
            DriverError::NotFound => "device not found",
            DriverError::Busy => "device busy",
            DriverError::Timeout => "operation timed out",
            DriverError::InvalidArgument => "invalid argument",
            DriverError::IoError => "I/O error",
            DriverError::NoMemory => "out of memory",
            DriverError::Unsupported => "operation unsupported",
            DriverError::PermissionDenied => "permission denied",
        }
    }
}

/// A device driver. Suspending and resuming are unsupported unless a
/// driver says otherwise; an interrupt is accepted and ignored.
pub trait DeviceDriver: Send + Sync {
    fn id(&self) -> DriverId;

    fn device_info(&self) -> &DeviceInfo;

    fn init(&mut self) -> Result<(), DriverError>;

    fn state(&self) -> DriverState;

    fn suspend(&mut self) -> Result<(), DriverError> {
        Err(DriverError::Unsupported)
    }

    fn resume(&mut self) -> Result<(), DriverError> {
        Err(DriverError::Unsupported)
    }

    fn deinit(&mut self) -> Result<(), DriverError>;

    fn handle_irq(&mut self, irq: u32) -> Result<(), DriverError> {
        Ok(())
    }
}

/// A device that can be read at an offset.
pub trait ReadableDevice: DeviceDriver {
    fn read(&mut self, offset: u64, buf: &mut [u8]) -> Result<usize, DriverError>;
}

/// A device that can be written at an offset.
pub trait WritableDevice: DeviceDriver {
    fn write(&mut self, offset: u64, data: &[u8]) -> Result<usize, DriverError>;
}

/// A device of fixed-size blocks.
pub trait BlockDevice: DeviceDriver {
    fn read_block(&mut self, block_id: u64, buf: &mut [u8]) -> Result<(), DriverError>;

    fn write_block(&mut self, block_id: u64, data: &[u8]) -> Result<(), DriverError>;

    fn block_size(&self) -> usize;

    fn num_blocks(&self) -> u64;
}

} // verus!
