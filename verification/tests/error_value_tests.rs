//! The error values the library gives: where they point, what they say, and what a failed
//! operation leaves behind.

use fvm::asm_error::AssemblerError;
use fvm::assembler::assemble_source;
use fvm::cli::Args;
use fvm::memory::{Bus, Ram, PERM_READ, PERM_WRITE};
use fvm::preprocessor::Preprocessor;
use fvm::vm::opcode_byte_text;
use fvm::initializer::write_loader_info;
use fvm::ports::{PortDevice, PortKind};
use fvm::vm_types::{Access, VmError};

#[test]
fn undefined_label_names_the_label_at_its_reference() {
    let source = "main:\n    JMP nowhere\n";
    let error = assemble_source(source).err().expect("should fail");
    assert!(matches!(&error, AssemblerError::Context { .. }));
    assert_eq!(error.text(), "Undefined label: nowhere");
    let loc = error.loc().expect("located");
    assert_eq!(&source[loc.span.clone()], "nowhere");
}

#[test]
fn parse_errors_point_at_the_offending_token() {
    let source = "main:\n    MOV rb0, 0x100\n";
    let error = assemble_source(source).err().expect("should fail");
    assert_eq!(error.text(), "Immediate out of range for 8-bit register");
    let loc = error.loc().expect("located");
    assert_eq!(&source[loc.span.clone()], "0x100");
}

#[test]
fn preprocessed_source_has_one_file_named_source() {
    let source = "#define X 5\nMOV rw0, X\n";
    let p = Preprocessor::preprocess_source(source).unwrap();
    assert_eq!(p.files.len(), 1);
    assert_eq!(p.files.path(0), "<source>");
    assert_eq!(p.files.source(0), source);
}

#[test]
fn preprocessing_errors_carry_the_table_and_a_location() {
    for source in ["#ifdef X\nNOP\n", "#else\n", "#endif\n", "#ifdef X\n#else\n#else\n#endif\n"] {
        let error = Preprocessor::preprocess_source(source).err().expect("should fail");
        assert!(error.files().is_some());
        assert!(error.loc().is_some());
    }
}

#[test]
fn span_offset_leaves_unlocated_errors_alone() {
    let e = AssemblerError::IoError("gone".to_string()).with_span_offset(7);
    assert!(matches!(e, AssemblerError::IoError(m) if m == "gone"));
}

#[test]
fn missing_rom_path_is_explained() {
    let args = Args {
        input: None,
        config: None,
        memory_size: None,
        decimal_port: None,
        decimal_input: None,
        decimal_output: None,
        no_decimal_io: false,
    };
    assert_eq!(args.to_config(None).err(), Some("missing ROM input path: provide INPUT or --config".to_string()));
}

#[test]
fn refused_reads_name_the_page_and_permissions() {
    let mut bus = Bus::new(vec![(Ram::new(4 * 4096, None), true)]).unwrap();
    bus.mmap(0, 0x10, 0, 1, PERM_WRITE).unwrap();
    assert!(matches!(bus.read_byte(0x2000), Err(VmError::UnmappedAddress { context: 0, address: 0x2000 })));
    assert!(matches!(
        bus.read_byte(0x10004),
        Err(VmError::PermissionDenied { context: 0, address: 0x10004, required: Access::Read, got })
            if got == PERM_WRITE
    ));
    assert!(matches!(
        bus.fetch_byte(0x10004),
        Err(VmError::PermissionDenied { required: Access::Execute, .. })
    ));
}

#[test]
fn unmapping_stops_at_the_first_unmapped_page() {
    let mut bus = Bus::new(vec![(Ram::new(4 * 4096, None), true)]).unwrap();
    bus.mmap(0, 0x10, 0, 2, PERM_READ | PERM_WRITE).unwrap();
    assert!(matches!(bus.munmap(0, 0x10, 3), Err(VmError::UnmappedAddress { context: 0, address: 0x12000 })));
    assert!(bus.read_byte(0x10000).is_err());
    assert!(matches!(bus.mprotect(0, 0x20, 1, PERM_READ), Err(VmError::UnmappedAddress { context: 0, address: 0x20000 })));
}

#[test]
fn ram_load_out_of_bounds_names_the_device_and_offset() {
    let mut ram = Ram::new(16, None);
    let e = ram.load_bytes(12, &[1, 2, 3, 4, 5]).err().expect("should fail");
    assert!(matches!(e, VmError::DeviceError { offset: 12, .. }));
}

#[test]
fn physical_byte_writes_stop_at_the_first_missing_address() {
    let mut bus = Bus::new(vec![(Ram::new(4096, None), true)]).unwrap();
    let r = bus.write_physical_bytes(4094, &[7, 8, 9]);
    assert!(matches!(r, Err(VmError::UnmappedPhysicalAddress { address: 4096 })));
    assert_eq!(bus.read_physical_byte(4094).unwrap(), 7);
    assert_eq!(bus.read_physical_byte(4095).unwrap(), 8);
}

#[test]
fn invalid_opcode_reason_names_the_byte() {
    assert_eq!(opcode_byte_text(0xFE), "0xFE is not a valid opcode byte");
    assert_eq!(opcode_byte_text(0x0A), "0x0A is not a valid opcode byte");
}

#[test]
fn decimal_lines_are_trimmed_of_unicode_white_space() {
    let input = "5\u{a0}\n\u{3000}42\u{2009}\r\n".as_bytes().to_vec();
    let mut device = PortDevice::new(PortKind::Decimal, None, input);
    assert_eq!(device.read_word().unwrap(), 5);
    assert_eq!(device.read_word().unwrap(), 42);
}

#[test]
fn statement_errors_name_the_fault() {
    let cases = [
        ("\n.code\nmain:\n  db 0xFF\n", "Data directives are not allowed in .code", "db"),
        (".bss\nmain:\n  HALT\n", "Unknown section: .bss", "bss"),
        ("main:\nmain:\n  HALT\n", "Duplicate label: main", "main"),
        (".data\nmain:\n  HALT\n", "Instructions are only allowed in .code", "HALT"),
    ];
    for (source, message, at) in cases {
        let error = assemble_source(source).err().expect("should fail");
        assert_eq!(error.text(), message);
        let loc = error.loc().expect("located");
        assert_eq!(&source[loc.span.clone()], at);
    }
}

#[test]
fn loader_info_lists_ports_in_ascending_order() {
    let mut bus = Bus::new(vec![(Ram::new(4096, None), true)]).unwrap();
    let regions = bus.physical_regions();
    let ports = vec![
        (2u32, PortDevice::new(PortKind::Raw, Some(*b"SECOND\0\0"), Vec::new())),
        (1u32, PortDevice::new(PortKind::Raw, Some(*b"FIRST\0\0\0"), Vec::new())),
    ];
    write_loader_info(&mut bus, &regions, &ports, &Vec::new()).unwrap();
    let byte = |a: u32| bus.read_physical_byte(a).unwrap();
    // One region entry of 24 bytes, then the port count and the entries.
    assert_eq!((byte(28), byte(29), byte(30), byte(31)), (0, 0, 0, 2));
    assert_eq!(byte(32), b'F');
    assert_eq!((byte(40), byte(41), byte(42), byte(43)), (0, 0, 0, 1));
    assert_eq!(byte(44), b'S');
    assert_eq!((byte(52), byte(53), byte(54), byte(55)), (0, 0, 0, 2));
}

#[test]
fn operand_errors_name_the_fault() {
    let cases = [
        ("main:\n    ADD rb0, 300\n", "Immediate out of range for 8-bit register", "300"),
        ("main:\n    SUB rh1, 70000\n", "Immediate out of range for 16-bit register", "70000"),
        ("main:\n    ADD rw0 rw1\n", "Expected ','", "rw1"),
        ("main:\n    XOR 5, rw1\n", "XOR: expected destination register", "5"),
        ("main:\n    MOV ip, rw1\n", "MOV: ip is not a valid destination; use TKR ip, rw", "ip"),
        ("main:\n    MOV rw0, rb1\n", "MOV: register views must have the same width", "rb1"),
        ("main:\n    FOO rw0\n", "Unknown mnemonic: FOO", "FOO"),
        ("main:\n    PUSH 5\n", "PUSH expects a register", "5"),
        ("main:\n    NOT main\n", "NOT expects a register", "main"),
        ("main:\n    JMP ,\n", "Expected register, immediate, or label", ","),
        ("main:\n    ZEXT rb0, rw1\n", "ZEXT: destination must be wider than source", "rw1"),
        ("main:\n    SEXT 5, rb1\n", "SEXT: expected destination register", "5"),
        ("main:\n    ZEXT rw0, 7\n", "ZEXT: expected source register", "7"),
        ("main:\n    SHL rw0, rw1\n", "SHL: shift amount register must be rb", "rw1"),
        ("main:\n    ROR rb0, 300\n", "ROR: shift amount immediate must fit in u8", "300"),
        ("main:\n    SAR 1, 2\n", "SAR: expected destination register", "1"),
        ("main:\n    SHR rw0, ,\n", "SHR: expected rb register or imm8 shift amount", ","),
        ("main:\n    LOAD rw0, rb1\n", "LOAD: address register must be rw", "rb1"),
        ("main:\n    LOAD rw0, 5\n", "LOAD: expected address register", "5"),
        ("main:\n    STORE rw0, 5\n", "STORE: expected source register", "5"),
        ("main:\n    STORE rb0, rw1\n", "STORE: address register must be rw", "rb0"),
        ("main:\n    IN rb0, 300\n", "IN: port must fit in u8", "300"),
        ("main:\n    OUT rb0, rb1\n", "OUT: expected port number", "rb0"),
        ("main:\n    OUT 1, 2\n", "OUT: expected source register", "2"),
        ("main:\n    MUNMAP rw0, rb1\n", "MUNMAP: size register must be rw", "rb1"),
        ("main:\n    MUNMAP 5, 4\n", "MUNMAP: expected virtual address register", "5"),
        ("main:\n    MMAP rw0, rb1, 4\n", "MMAP: physical address register must be rw", "rb1"),
        ("main:\n    MMAP rw0, rw1, ,\n", "MMAP: expected rw register or imm32 for size", ","),
    ];
    for (source, message, at) in cases {
        let error = assemble_source(source).err().expect("should fail");
        assert_eq!(error.text(), message);
        let loc = error.loc().expect("located");
        assert_eq!(&source[loc.span.clone()], at);
    }
}
