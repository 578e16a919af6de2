use lib::driver::{DriverId, DeviceType, DeviceInfo, DriverState, DriverError, DeviceDriver};

fn takes_driver(_: &dyn DeviceDriver) {}

fn hash_id(id: DriverId) -> u64 {
    let mut h = 0u64;
    // Simple hash for testing
    h ^= id.0 as u64;
    h
}


struct MockDevice {
    info: DeviceInfo,
    state: DriverState,
}

impl MockDevice {
    fn new() -> Self {
        Self {
            info: DeviceInfo {
                name: "mock-device",
                device_type: DeviceType::Block,
                vendor_id: 0x1234,
                device_id: 0x5678,
                irq: Some(4),
                mmio_base: Some(0xFE000000),
                mmio_size: Some(0x1000),
            },
            state: DriverState::Uninitialized,
        }
    }
}

impl DeviceDriver for MockDevice {
    fn id(&self) -> DriverId { DriverId::new(1) }
    fn device_info(&self) -> &DeviceInfo { &self.info }
    fn init(&mut self) -> Result<(), DriverError> {
        self.state = DriverState::Running;
        Ok(())
    }
    fn state(&self) -> DriverState { self.state }
    fn deinit(&mut self) -> Result<(), DriverError> {
        self.state = DriverState::Removed;
        Ok(())
    }
}

#[test]
fn test_driver_id() {
    let id = DriverId::INVALID();
    assert!(!id.is_valid());
    let id = DriverId::new(42);
    assert!(id.is_valid());
}

#[test]
fn test_device_type_values() {
    assert_eq!(DeviceType::Block as u8, 0);
    assert_eq!(DeviceType::Network as u8, 1);
    assert_eq!(DeviceType::Virtio as u8, 7);
}

#[test]
fn test_device_info() {
    let info = DeviceInfo {
        name: "test",
        device_type: DeviceType::Serial,
        vendor_id: 0, device_id: 0,
        irq: None, mmio_base: None, mmio_size: None,
    };
    assert_eq!(info.name, "test");
    assert_eq!(info.device_type, DeviceType::Serial);
}

#[test]
fn test_driver_state_transitions() {
    let mut dev = MockDevice::new();
    assert_eq!(dev.state(), DriverState::Uninitialized);
    dev.init().unwrap();
    assert_eq!(dev.state(), DriverState::Running);
    dev.deinit().unwrap();
    assert_eq!(dev.state(), DriverState::Removed);
}

#[test]
fn test_driver_error_display() {
    let err = DriverError::NotFound;
    assert!(!err.message().is_empty());
}

#[test]
fn test_device_driver_is_object_safe() {
    let dev = MockDevice::new();
    takes_driver(&dev);
}

#[test]
fn test_driver_trait_default_impls() {
    let mut dev = MockDevice::new();
    dev.init().unwrap();
    // suspend and resume have default impls returning Unsupported
    assert_eq!(dev.suspend(), Err(DriverError::Unsupported));
    assert_eq!(dev.resume(), Err(DriverError::Unsupported));
    // handle_irq has default impl returning Ok
    assert_eq!(dev.handle_irq(4), Ok(()));
}

#[test]
fn test_driver_state_equality() {
    assert_eq!(DriverState::Running, DriverState::Running);
    assert_ne!(DriverState::Running, DriverState::Error);
}

#[test]
fn test_device_info_with_mmio() {
    let info = DeviceInfo {
        name: "virtio-blk",
        device_type: DeviceType::Virtio,
        vendor_id: 0x1AF4, device_id: 0x1001,
        irq: Some(5), mmio_base: Some(0xFE000000), mmio_size: Some(0x1000),
    };
    assert_eq!(info.vendor_id, 0x1AF4);
    assert_eq!(info.mmio_base, Some(0xFE000000));
}

#[test]
fn test_driver_id_hash() {
    let id1 = DriverId::new(42);
    let id2 = DriverId::new(42);
    assert_eq!(hash_id(id1), hash_id(id2));
}

#[test]
fn test_device_type_codes() {
    assert_eq!(DeviceType::Custom.as_u8(), 255);
    assert_eq!(DeviceType::Usb.as_u8(), 6);
    assert_eq!(DeviceType::Block.as_u8(), DeviceType::Block as u8);
}

#[test]
fn test_driver_error_texts() {
    assert_eq!(DriverError::IoError.message(), "I/O error");
    assert_eq!(DriverError::Unsupported.message(), "operation unsupported");
}
