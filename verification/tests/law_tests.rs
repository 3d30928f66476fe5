//! Concrete instances of the library's laws and of its other promises: stack and bus
//! round trips, page-table undo, the object format round trip, relocation, the port table,
//! flags, interrupts, booting errors, the command-line configuration and error rendering.

use fvm::assembler::assemble_source;
use fvm::cli::Args;
use fvm::config::{DeviceConfig, GeneralDeviceConfig, VmConfig};
use fvm::diagnostic::render_error;
use fvm::flags::{Flag, Flags};
use fvm::format::FvmFormat;
use fvm::memory::{Bus, Ram, PERM_READ, PERM_WRITE};
use fvm::opcode::Op;
use fvm::ports::{PortDevice, PortKind};
use fvm::section::Section;
use fvm::vm::VM;
use fvm::vm_types::{Interrupt, VmError};

const MIB: u32 = 1024 * 1024;

fn halt_rom() -> Vec<u8> {
    FvmFormat::new(0, Vec::new(), vec![Op::Halt.as_byte()], Vec::new(), Vec::new())
        .to_bytes()
        .unwrap()
}

fn config(mem_size: u32, devices: Vec<DeviceConfig>) -> VmConfig {
    VmConfig { mem_size, rom: "program.fo".to_string(), devices }
}

fn small_bus() -> Bus {
    let mut bus = Bus::new(vec![(Ram::new(4 * 4096, None), true)]).unwrap();
    bus.mmap(0, 0x10, 0, 2, PERM_READ | PERM_WRITE).unwrap();
    bus
}

#[test]
fn popping_after_pushing_gives_back_the_low_bytes() {
    let mut vm = VM::new(config(8 * MIB, Vec::new()), &halt_rom()).unwrap();
    let sp = vm.files[0].sp;
    vm.push_value(4, 0xDEAD_BEEF).unwrap();
    assert_eq!(vm.files[0].sp, sp - 4);
    assert_eq!(vm.pop_value(4).unwrap(), 0xDEAD_BEEF);
    assert_eq!(vm.files[0].sp, sp);
    vm.push_value(2, 0x1234_5678).unwrap();
    assert_eq!(vm.pop_value(2).unwrap(), 0x5678);
    vm.push_value(1, 0x1234_56AB).unwrap();
    assert_eq!(vm.pop_value(1).unwrap(), 0xAB);
    assert_eq!(vm.files[0].sp, sp);
}

#[test]
fn pushing_below_address_zero_overflows_and_changes_nothing() {
    let mut vm = VM::new(config(8 * MIB, Vec::new()), &halt_rom()).unwrap();
    vm.files[0].sp = 2;
    assert!(matches!(vm.push_value(4, 1), Err(VmError::AddressOverflow)));
    assert_eq!(vm.files[0].sp, 2);
    assert!(vm.push_value(3, 1).is_err());
}

#[test]
fn bus_reads_back_what_it_stored() {
    let mut bus = small_bus();
    bus.write_u32(0x10_000, 0xCAFE_BABE).unwrap();
    assert_eq!(bus.read_u32(0x10_000).unwrap(), 0xCAFE_BABE);
    bus.write_u16(0x10_010, 0xBEEF).unwrap();
    assert_eq!(bus.read_u16(0x10_010).unwrap(), 0xBEEF);
    bus.write_byte(0x11_FFF, 0x5A).unwrap();
    assert_eq!(bus.read_byte(0x11_FFF).unwrap(), 0x5A);
    assert_eq!(bus.read_physical_byte(0x1FFF).unwrap(), 0x5A);
    assert_eq!(bus.read_byte(0x10_001).unwrap(), 0xFE);
}

#[test]
fn unmapping_what_was_mapped_restores_the_page_tables() {
    let mut bus = small_bus();
    bus.mmap(0, 0x20, 2, 2, PERM_READ).unwrap();
    assert!(bus.read_byte(0x20_000).is_ok());
    bus.munmap(0, 0x20, 2).unwrap();
    assert!(bus.read_byte(0x20_000).is_err());
    assert!(bus.read_byte(0x21_000).is_err());
    assert!(bus.read_byte(0x10_000).is_ok());
    assert!(bus.munmap(0, 0x20, 1).is_err());
}

#[test]
fn mapping_outside_physical_memory_fails_and_changes_nothing() {
    let mut bus = small_bus();
    assert!(bus.mmap(0, 0x30, 3, 2, PERM_READ).is_err());
    assert!(bus.read_byte(0x30_000).is_err());
}

#[test]
fn destroying_a_context_removes_only_its_pages() {
    let mut bus = small_bus();
    bus.mmap(1, 0x10, 1, 1, PERM_READ).unwrap();
    bus.set_context(1);
    assert!(bus.read_byte(0x10_000).is_ok());
    bus.destroy_context(1);
    assert!(bus.read_byte(0x10_000).is_err());
    bus.set_context(0);
    assert!(bus.read_byte(0x10_000).is_ok());
}

#[test]
fn object_files_read_back_as_written() {
    let rom = FvmFormat::new(
        7,
        vec![1, 2, 3],
        vec![Op::Nop.as_byte(), Op::Halt.as_byte()],
        vec![9; 5],
        vec![(Section::Code, 0), (Section::Data, 1)],
    );
    let bytes = rom.to_bytes().unwrap();
    assert_eq!(bytes.len(), 25 + 3 + 2 + 5 + 10);
    let back = FvmFormat::from_bytes(&bytes).unwrap();
    assert_eq!(back.entry_point, 7);
    assert_eq!(back.ro_data, vec![1, 2, 3]);
    assert_eq!(back.code, vec![Op::Nop.as_byte(), Op::Halt.as_byte()]);
    assert_eq!(back.rw_data, vec![9; 5]);
    assert_eq!(back.relocations, vec![(Section::Code, 0), (Section::Data, 1)]);
    assert!(FvmFormat::from_bytes(&bytes[..bytes.len() - 1]).is_err());
}

#[test]
fn relocated_data_pointer_keeps_its_offset_in_the_section() {
    let rom = FvmFormat::new(
        4,
        vec![0, 0, 0, 0, 0, 0, 0, 7],
        vec![Op::Halt.as_byte()],
        vec![0xAA, 0xBB, 0xCC, 0xDD],
        vec![(Section::RoData, 4)],
    )
    .to_bytes()
    .unwrap();
    let vm = VM::new(config(8 * MIB, Vec::new()), &rom).unwrap();
    // Rodata holds assembled addresses 0..8 and is placed at 0x2000: the entry point (4)
    // and the pointer stored at offset 4 (7) keep their offsets in it.
    assert_eq!(vm.files[0].ip, 0x2004);
    assert_eq!(vm.bus.read_u32(0x2004).unwrap(), 0x2007);
}

#[test]
fn relocation_into_no_section_is_refused() {
    let rom = FvmFormat::new(0, Vec::new(), vec![Op::Halt.as_byte(), 0, 0, 0, 0], Vec::new(), vec![(Section::Code, 1)])
        .to_bytes()
        .unwrap();
    // The slot holds 0, which lies in the code section: fine.
    assert!(VM::new(config(8 * MIB, Vec::new()), &rom).is_ok());
    let rom = FvmFormat::new(0, Vec::new(), vec![Op::Halt.as_byte(), 0, 0, 0, 99], Vec::new(), vec![(Section::Code, 1)])
        .to_bytes()
        .unwrap();
    assert!(matches!(VM::new(config(8 * MIB, Vec::new()), &rom), Err(VmError::InvalidRomImage(_))));
    let rom = FvmFormat::new(0, Vec::new(), vec![Op::Halt.as_byte()], Vec::new(), vec![(Section::Code, 0)])
        .to_bytes()
        .unwrap();
    assert!(matches!(VM::new(config(8 * MIB, Vec::new()), &rom), Err(VmError::InvalidRomImage(_))));
}

#[test]
fn port_table_lists_each_port_once_sorted_with_the_last_device() {
    let general = GeneralDeviceConfig::default();
    let devices = vec![
        DeviceConfig::HexIo { port: 5, input: "stdin".to_string(), output: "stdout".to_string(), general: general.clone() },
        DeviceConfig::DecimalIo { port: 2, input: "stdin".to_string(), output: "stdout".to_string(), general: general.clone() },
        DeviceConfig::RawIo { port: 5, input: "stdin".to_string(), output: "stdout".to_string(), general },
    ];
    let vm = VM::new(config(8 * MIB, devices), &halt_rom()).unwrap();
    // One memory region (28 bytes with its count), then the port table.
    assert_eq!(vm.bus.read_u32(28).unwrap(), 2);
    let id = |at: u32| -> Vec<u8> { (at..at + 8).map(|a| vm.bus.read_byte(a).unwrap()).collect() };
    assert_eq!(id(32), b"DECIO\0\0\0".to_vec());
    assert_eq!(vm.bus.read_u32(40).unwrap(), 2);
    assert_eq!(id(44), b"RAWIN\0\0\0".to_vec());
    assert_eq!(vm.bus.read_u32(52).unwrap(), 5);
    // Then the five mappings: the loader information's first.
    assert_eq!(vm.bus.read_u32(56).unwrap(), 5);
    assert_eq!(vm.bus.read_byte(60).unwrap(), 0);
}

#[test]
fn booting_needs_a_main_ram_that_backs_the_stack() {
    assert!(matches!(VM::new(config(4 * MIB - 4096, Vec::new()), &halt_rom()), Err(VmError::Layout(_))));
    // The loader information and a spare page take 0x2000 bytes; the code page must end
    // below the 4 MiB stack backing at the top of main RAM.
    assert!(VM::new(config(4 * MIB + 3 * 4096, Vec::new()), &halt_rom()).is_ok());
    assert!(matches!(VM::new(config(4 * MIB + 2 * 4096, Vec::new()), &halt_rom()), Err(VmError::Layout(_))));
}

#[test]
fn booting_refuses_bad_object_files() {
    assert!(matches!(VM::new(config(8 * MIB, Vec::new()), &[1, 2, 3]), Err(VmError::CoreErrors(_))));
    let mut bytes = halt_rom();
    bytes[4] = 2;
    assert!(matches!(VM::new(config(8 * MIB, Vec::new()), &bytes), Err(VmError::CoreErrors(_))));
}

#[test]
fn flags_survive_their_bit_encoding() {
    let mut f = Flags::new();
    f.set(Flag::Carry);
    f.set(Flag::Zero);
    assert_eq!(Flags::from_bits(f.bits()).bits(), f.bits());
    f.clear(Flag::Carry);
    assert!(f.is_set(Flag::Zero) && !f.is_set(Flag::Carry));
    assert_eq!(Flags::from_bits(0xFF).bits(), 0x0F);
}

#[test]
fn interrupts_come_back_from_their_index() {
    for i in [
        Interrupt::DivisionByZero,
        Interrupt::BusFault,
        Interrupt::InvalidOpcode,
        Interrupt::PrivilegeViolation,
        Interrupt::Syscall,
        Interrupt::DeviceEndOfInput,
    ] {
        assert_eq!(Interrupt::from_index(i.index()), Some(i));
    }
    assert_eq!(Interrupt::from_index(3), None);
}

#[test]
fn decimal_device_reads_numbers_and_writes_lines() {
    let mut d = PortDevice::new(PortKind::Decimal, None, b" 42 \n7\n".to_vec());
    assert_eq!(d.read_word().unwrap(), 42);
    assert_eq!(d.read_word().unwrap(), 7);
    assert!(d.read_word().is_err());
    d.write_word(65);
    d.write_byte(10);
    assert_eq!(d.take_output(), b"65\n10\n".to_vec());
    assert!(d.take_output().is_empty());
}

#[test]
fn command_line_options_make_a_configuration() {
    let args = Args {
        input: Some("prog.fo".to_string()),
        config: None,
        memory_size: None,
        decimal_port: Some(3),
        decimal_input: None,
        decimal_output: Some("out.txt".to_string()),
        no_decimal_io: false,
    };
    let c = args.to_config(None).unwrap();
    assert_eq!(c.mem_size, 16 * MIB);
    assert_eq!(c.rom, "prog.fo");
    match &c.devices[0] {
        DeviceConfig::DecimalIo { port, input, output, .. } => {
            assert_eq!(*port, 3);
            assert_eq!(input, "stdin");
            assert_eq!(output, "out.txt");
        }
        _ => panic!("expected the decimal device"),
    }
    let loaded = config(32 * MIB, Vec::new());
    let c = args.to_config(Some(loaded)).unwrap();
    assert_eq!(c.rom, "prog.fo");
    assert_eq!(c.mem_size, 32 * MIB);
    assert!(c.devices.is_empty());
    let none = Args { input: None, ..args };
    assert!(none.to_config(None).is_err());
}

#[test]
fn rendered_errors_quote_the_source() {
    let error = assemble_source("main:\n    MOV rw99, 0\n    HALT\n").err().expect("should fail");
    let message = error.text();
    let rendered = render_error(&error, false);
    assert_ne!(rendered, message);
    assert!(rendered.contains(&message));
    assert!(rendered.contains("MOV"));
    assert!(rendered.len() > message.len());
}
