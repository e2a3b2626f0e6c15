use std::collections::HashSet;
use indexrs::types::{FileId, Language, SegmentId, SymbolKind, Trigram, u32_to_decimal, usize_to_decimal};

#[test]
fn test_file_id_display() {
    assert_eq!(FileId(42).to_string(), "42");
    assert_eq!(FileId(0).to_string(), "0");
    assert_eq!(FileId(u32::MAX).to_string(), "4294967295");
}

#[test]
fn test_file_id_equality_and_hash() {
    let mut set = HashSet::new();
    set.insert(FileId(1));
    set.insert(FileId(2));
    set.insert(FileId(1)); // duplicate
    assert_eq!(set.len(), 2);
}

#[test]
fn test_trigram_from_bytes() {
    let t = Trigram::from_bytes(b'a', b'b', b'c');
    assert_eq!(t, Trigram([b'a', b'b', b'c']));
}

#[test]
fn test_trigram_to_u32() {
    let t = Trigram::from_bytes(b'a', b'b', b'c');
    // 'a' = 0x61, 'b' = 0x62, 'c' = 0x63
    // (0x61 << 16) | (0x62 << 8) | 0x63 = 6382179
    let expected = (0x61u32 << 16) | (0x62u32 << 8) | 0x63u32;
    assert_eq!(t.to_u32(), expected);
    assert_eq!(t.to_u32(), 6_382_179);
}

#[test]
fn test_trigram_to_u32_zero() {
    let t = Trigram::from_bytes(0, 0, 0);
    assert_eq!(t.to_u32(), 0);
}

#[test]
fn test_trigram_to_u32_max() {
    let t = Trigram::from_bytes(0xFF, 0xFF, 0xFF);
    assert_eq!(t.to_u32(), 0x00FF_FFFF);
}

#[test]
fn test_trigram_display_printable() {
    let t = Trigram::from_bytes(b'f', b'o', b'o');
    assert_eq!(t.to_string(), "foo");
}

#[test]
fn test_trigram_display_non_printable() {
    let t = Trigram::from_bytes(0x00, b'a', 0xFF);
    assert_eq!(t.to_string(), "\\x00a\\xff");
}

#[test]
fn test_segment_id_display() {
    assert_eq!(SegmentId(1).to_string(), "1");
    assert_eq!(SegmentId(9999).to_string(), "9999");
}

#[test]
fn test_language_from_extension() {
    assert_eq!(Language::from_extension("rs"), Language::Rust);
    assert_eq!(Language::from_extension("py"), Language::Python);
    assert_eq!(Language::from_extension("pyi"), Language::Python);
    assert_eq!(Language::from_extension("ts"), Language::TypeScript);
    assert_eq!(Language::from_extension("tsx"), Language::TypeScript);
    assert_eq!(Language::from_extension("js"), Language::JavaScript);
    assert_eq!(Language::from_extension("jsx"), Language::JavaScript);
    assert_eq!(Language::from_extension("mjs"), Language::JavaScript);
    assert_eq!(Language::from_extension("cjs"), Language::JavaScript);
    assert_eq!(Language::from_extension("go"), Language::Go);
    assert_eq!(Language::from_extension("c"), Language::C);
    assert_eq!(Language::from_extension("h"), Language::C);
    assert_eq!(Language::from_extension("cpp"), Language::Cpp);
    assert_eq!(Language::from_extension("cxx"), Language::Cpp);
    assert_eq!(Language::from_extension("cc"), Language::Cpp);
    assert_eq!(Language::from_extension("hpp"), Language::Cpp);
    assert_eq!(Language::from_extension("java"), Language::Java);
    assert_eq!(Language::from_extension("rb"), Language::Ruby);
    assert_eq!(Language::from_extension("sh"), Language::Shell);
    assert_eq!(Language::from_extension("bash"), Language::Shell);
    assert_eq!(Language::from_extension("zsh"), Language::Shell);
    assert_eq!(Language::from_extension("fish"), Language::Shell);
    assert_eq!(Language::from_extension("md"), Language::Markdown);
    assert_eq!(Language::from_extension("markdown"), Language::Markdown);
    assert_eq!(Language::from_extension("unknown"), Language::Unknown);
    assert_eq!(Language::from_extension(""), Language::Unknown);
    assert_eq!(Language::from_extension("xyz"), Language::Unknown);
}

#[test]
fn test_language_display() {
    assert_eq!(Language::Rust.to_string(), "Rust");
    assert_eq!(Language::Python.to_string(), "Python");
    assert_eq!(Language::TypeScript.to_string(), "TypeScript");
    assert_eq!(Language::JavaScript.to_string(), "JavaScript");
    assert_eq!(Language::Go.to_string(), "Go");
    assert_eq!(Language::C.to_string(), "C");
    assert_eq!(Language::Cpp.to_string(), "C++");
    assert_eq!(Language::Java.to_string(), "Java");
    assert_eq!(Language::Ruby.to_string(), "Ruby");
    assert_eq!(Language::Shell.to_string(), "Shell");
    assert_eq!(Language::Markdown.to_string(), "Markdown");
    assert_eq!(Language::Unknown.to_string(), "Unknown");
}

#[test]
fn test_symbol_kind_display() {
    assert_eq!(SymbolKind::Function.to_string(), "Function");
    assert_eq!(SymbolKind::Struct.to_string(), "Struct");
    assert_eq!(SymbolKind::Trait.to_string(), "Trait");
    assert_eq!(SymbolKind::Enum.to_string(), "Enum");
    assert_eq!(SymbolKind::Interface.to_string(), "Interface");
    assert_eq!(SymbolKind::Class.to_string(), "Class");
    assert_eq!(SymbolKind::Method.to_string(), "Method");
    assert_eq!(SymbolKind::Constant.to_string(), "Constant");
    assert_eq!(SymbolKind::Variable.to_string(), "Variable");
    assert_eq!(SymbolKind::Type.to_string(), "Type");
    assert_eq!(SymbolKind::Module.to_string(), "Module");
}

#[test]
fn decimal_text_has_no_leading_zeros() {
    assert_eq!(u32_to_decimal(0), "0");
    assert_eq!(u32_to_decimal(10), "10");
    assert_eq!(u32_to_decimal(1_000_007), "1000007");
    assert_eq!(usize_to_decimal(0), "0");
    assert_eq!(usize_to_decimal(4_294_967_296), "4294967296");
}

#[test]
fn trigram_key_is_injective_on_examples() {
    let a = Trigram::from_bytes(1, 0, 0);
    let b = Trigram::from_bytes(0, 255, 255);
    assert_ne!(a.to_u32(), b.to_u32());
    assert_eq!(a.to_u32(), 65536);
    assert_eq!(b.to_u32(), 65535);
}

#[test]
fn trigram_display_escapes_space_and_controls() {
    assert_eq!(Trigram::from_bytes(b' ', b'\n', b'~').to_string(), " \\x0a~");
    assert_eq!(Trigram::from_bytes(0x7f, b'Z', 0x80).to_string(), "\\x7fZ\\x80");
}

#[test]
fn from_extension_is_case_sensitive() {
    assert_eq!(Language::from_extension("RS"), Language::Unknown);
    assert_eq!(Language::from_extension("hxx"), Language::Cpp);
    assert_eq!(Language::from_extension("hh"), Language::Cpp);
}
