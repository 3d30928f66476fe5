//! Text forms of flags and register encodings, the success wrapper, and what the
//! preprocessor hands the parser.

use fvm::asm_error::AssemblerError;
use fvm::assembler::assemble_loaded;
use fvm::flags::{Flag, Flags};
use fvm::lexer::TokenKind;
use fvm::memory::{Bus, Ram};
use fvm::preprocessor::{NoIncludes, Preprocessor, SourceLoader};
use fvm::register::RegisterEncoding;
use fvm::utils::OkAble;

#[test]
fn flags_describe_lists_set_flags_in_order() {
    let mut f = Flags::new();
    assert_eq!(f.describe(), "Flags()");
    f.set(Flag::Carry);
    f.set(Flag::Zero);
    assert_eq!(f.describe(), "Flags(ZC)");
    f.set(Flag::Overflow);
    f.set(Flag::Negative);
    assert_eq!(f.describe(), "Flags(ZNCO)");
}

#[test]
fn register_describe_names_views() {
    assert_eq!(RegisterEncoding::rw(3).describe(), "rw3");
    assert_eq!(RegisterEncoding::rh(15).describe(), "rh15");
    assert_eq!(RegisterEncoding::rb(0).describe(), "rb0");
    assert_eq!(RegisterEncoding::sp().describe(), "sp");
    assert_eq!(RegisterEncoding::cr().describe(), "cr");
    assert_eq!(RegisterEncoding::ip().describe(), "ip");
    assert_eq!(RegisterEncoding::mr().describe(), "mr");
    assert_eq!(RegisterEncoding(0x05).describe(), "Register(0x05)");
}

#[test]
fn ok_wraps_any_value() {
    let r: Result<u32, String> = 7u32.ok();
    assert_eq!(r, Ok(7));
}

#[test]
fn preprocess_source_keeps_offsets_and_ends_with_eof() {
    let src = "#define N 5\nmov rw0, N\n";
    let p = Preprocessor::preprocess_source(src).unwrap();
    let kinds: Vec<&TokenKind> = p.tokens.iter().map(|t| &t.kind).collect();
    // The define line ends a statement only where nothing precedes it: no token yet.
    assert!(matches!(kinds[0], TokenKind::Newline));
    assert!(matches!(kinds[1], TokenKind::Ident(s) if s == "mov"));
    assert!(matches!(kinds[2], TokenKind::Ident(s) if s == "rw0"));
    assert!(matches!(kinds[3], TokenKind::Comma));
    assert!(matches!(kinds[4], TokenKind::Number(5)));
    assert!(matches!(kinds[5], TokenKind::Newline));
    assert!(matches!(kinds[6], TokenKind::Eof));
    assert_eq!(kinds.len(), 7);
    // The replaced name keeps its own place in the file.
    assert_eq!(p.tokens[4].span, 21..22);
    assert_eq!(p.tokens[4].line, 2);
    assert_eq!(p.tokens[6].span, src.len()..src.len());
}

#[test]
fn preprocess_source_adds_line_end_to_last_line() {
    let p = Preprocessor::preprocess_source("halt").unwrap();
    assert_eq!(p.tokens.len(), 3);
    assert!(matches!(p.tokens[1].kind, TokenKind::Newline));
    assert_eq!(p.tokens[1].span, 4..4);
}

#[test]
fn preprocess_source_rejects_unclosed_conditional() {
    assert!(Preprocessor::preprocess_source("#ifdef X\nhalt\n").is_err());
}

#[test]
fn assemble_loaded_reports_failed_read_as_io_error() {
    let mut loader = NoIncludes;
    let r = assemble_loaded(&mut loader, Err("missing.fa".to_string()));
    assert!(matches!(r, Err(AssemblerError::IoError(m)) if m == "missing.fa"));
}

#[test]
fn physical_word_write_stops_at_device_end() {
    let mut bus = Bus::new(vec![(Ram::new(4096, None), true)]).unwrap();
    assert!(bus.write_physical_u32(0, 0x1122_3344).is_ok());
    assert_eq!(bus.read_physical_u32(0).unwrap(), 0x1122_3344);
    // Two bytes fit before the end: they are written, then the write fails.
    assert!(bus.write_physical_u32(4094, 0xAABB_CCDD).is_err());
    assert_eq!(bus.read_physical_byte(4094).unwrap(), 0xAA);
    assert_eq!(bus.read_physical_byte(4095).unwrap(), 0xBB);
    assert!(bus.read_physical_u32(4094).is_err());
    // An address outside every device changes nothing and fails.
    assert!(bus.write_physical_u32(8192, 1).is_err());
    assert!(bus.read_physical_u32(8192).is_err());
}

#[test]
fn no_includes_loader_refuses_every_file() {
    let mut loader = NoIncludes;
    assert_eq!(loader.load("main.fa", "lib.fa"), Err("no include files are available".to_string()));
}

/// Serves files from a fixed list; an include names the file as written.
struct ListLoader {
    files: Vec<(String, String)>,
}

impl SourceLoader for ListLoader {
    fn load(&mut self, _current: &str, target: &str) -> Result<(String, String), String> {
        for (name, text) in &self.files {
            if name == target {
                return Ok((name.clone(), text.clone()));
            }
        }
        Err(format!("no file {}", target))
    }
}

#[test]
fn included_file_tokens_are_spliced_with_its_macros() {
    let mut loader = ListLoader { files: vec![("lib.fa".to_string(), "#define N 7\nNOP\n".to_string())] };
    let p = fvm::preprocessor::preprocess_with(&mut loader, "main.fa".to_string(), "#include \"lib.fa\"\nMOV rw0, N\n".to_string()).unwrap();
    assert_eq!(p.files.len(), 2);
    assert_eq!(p.files.path(1), "lib.fa");
    let kinds: Vec<&TokenKind> = p.tokens.iter().map(|t| &t.kind).collect();
    // From lib.fa: the define line's statement end, NOP and its line feed; then main.fa.
    assert!(matches!(kinds[1], TokenKind::Ident(s) if s == "NOP"));
    assert_eq!(p.tokens[1].file, 1);
    assert!(kinds.iter().any(|k| matches!(k, TokenKind::Number(7))));
    assert!(matches!(kinds[kinds.len() - 1], TokenKind::Eof));
    assert_eq!(p.tokens[kinds.len() - 1].file, 0);
}

#[test]
fn circular_include_is_an_error() {
    let mut loader = ListLoader { files: vec![("main.fa".to_string(), "#include \"main.fa\"\n".to_string())] };
    let r = fvm::preprocessor::preprocess_with(&mut loader, "main.fa".to_string(), "#include \"main.fa\"\n".to_string());
    let e = r.err().expect("should fail");
    assert!(e.text().contains("Circular include"));
}
