//! Port device tests: reading formatted input and writing formatted output.

use fvm::ports::{PortDevice, PortKind};

#[test]
fn reads_prefixed_and_plain_hex_bytes() {
    let mut device = PortDevice::new(PortKind::Hex, None, b"0x41\n7f\n".to_vec());

    assert_eq!(device.read_byte().unwrap(), 0x41);
    assert_eq!(device.read_byte().unwrap(), 0x7F);
}
