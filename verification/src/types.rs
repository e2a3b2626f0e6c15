//! Core identifier types and enums: file and segment identifiers, trigrams,
//! language classification and symbol kinds.
//!
//! The textual forms of these types (what a `Display` impl would print) are
//! offered as `to_string` methods with exact contracts.

use vstd::prelude::*;
use crate::text::{ascii_chars, all_ascii, ascii_string, str_eq};

verus! {

/// Unique identifier for an indexed file within the index.
#[derive(Debug, Clone, Copy, PartialEq, Eq, Hash, PartialOrd, Ord)]
pub struct FileId(pub u32);

/// A 3-byte n-gram used for trigram index lookups.
#[derive(Debug, Clone, Copy, PartialEq, Eq, Hash, PartialOrd, Ord)]
pub struct Trigram(pub [u8; 3]);

/// Identifier for an index segment.
#[derive(Debug, Clone, Copy, PartialEq, Eq, Hash, PartialOrd, Ord)]
pub struct SegmentId(pub u32);

/// Programming language classification for indexed files.
#[derive(Debug, Clone, Copy, PartialEq, Eq, Hash)]
pub enum Language {
    Rust,
    Python,
    TypeScript,
    JavaScript,
    Go,
    C,
    Cpp,
    Java,
    Ruby,
    Shell,
    Markdown,
    Unknown,
}

/// Kind of symbol extracted from source code.
#[derive(Debug, Clone, Copy, PartialEq, Eq, Hash)]
pub enum SymbolKind {
    Function,
    Struct,
    Trait,
    Enum,
    Interface,
    Class,
    Method,
    Constant,
    Variable,
    Type,
    Module,
}

/// The ASCII decimal digits of a natural number, most significant first,
/// without leading zeros (zero is the single digit `0`).
pub open spec fn decimal_bytes(n: nat) -> Seq<u8>
    decreases n,
{
    if n < 10 {
        seq![(48 + n) as u8]
    } else {
        decimal_bytes(n / 10).push((48 + n % 10) as u8)
    }
}

/// Decimal digits are ASCII.
pub proof fn lemma_decimal_ascii(n: nat)
    ensures
        all_ascii(decimal_bytes(n)),
        decimal_bytes(n).len() >= 1,
    decreases n,
{
    if n >= 10 {
        lemma_decimal_ascii(n / 10);
    }
}

fn decimal_digits(n: u64) -> (r: Vec<u8>)
    ensures
        r@ == decimal_bytes(n as nat),
    decreases n,
{
    if n < 10 {
        let mut v: Vec<u8> = Vec::new();
        v.push(48u8 + n as u8);
        v
    } else {
        let mut v = decimal_digits(n / 10);
        v.push(48u8 + (n % 10) as u8);
        v
    }
}

/// The decimal text of a number.
pub fn u32_to_decimal(n: u32) -> (r: String)
    ensures
        r@ == ascii_chars(decimal_bytes(n as nat)),
{
    let v = decimal_digits(n as u64);
    proof {
        lemma_decimal_ascii(n as nat);
    }
    ascii_string(v.as_slice())
}

/// The decimal text of a size or count.
pub fn usize_to_decimal(n: usize) -> (r: String)
    ensures
        r@ == ascii_chars(decimal_bytes(n as nat)),
{
    let v = decimal_digits(n as u64);
    proof {
        lemma_decimal_ascii(n as nat);
    }
    ascii_string(v.as_slice())
}

impl FileId {
    /// The decimal text of the identifier.
    pub fn to_string(&self) -> (r: String)
        ensures
            r@ == ascii_chars(decimal_bytes(self.0 as nat)),
    {
        u32_to_decimal(self.0)
    }
}

impl SegmentId {
    /// The decimal text of the identifier.
    pub fn to_string(&self) -> (r: String)
        ensures
            r@ == ascii_chars(decimal_bytes(self.0 as nat)),
    {
        u32_to_decimal(self.0)
    }
}

/// A byte is printed as itself when it is a graphic ASCII character or a space.
pub open spec fn is_printable_byte(b: u8) -> bool {
    0x21 <= b <= 0x7e || b == 0x20
}

/// Lower-case hexadecimal digit of a value below 16.
pub open spec fn hex_digit(d: u8) -> u8 {
    if d < 10 { (48 + d) as u8 } else { (87 + d) as u8 }
}

/// How one byte of a trigram is printed: itself, or `\xHH` in lower-case hex.
pub open spec fn escaped_byte(b: u8) -> Seq<u8> {
    if is_printable_byte(b) {
        seq![b]
    } else {
        seq![92u8, 120u8, hex_digit(b / 16), hex_digit(b % 16)]
    }
}

/// The printed form of a trigram, byte by byte.
pub open spec fn trigram_display_bytes(t: Trigram) -> Seq<u8> {
    escaped_byte(t.0[0]) + escaped_byte(t.0[1]) + escaped_byte(t.0[2])
}

/// The integer key of three bytes: `(a << 16) | (b << 8) | c`.
pub open spec fn trigram_key(a: u8, b: u8, c: u8) -> int {
    a * 65536 + b * 256 + c
}

/// The packed key of three bytes gives them back: the first byte is the key
/// divided by 65536, the second the key divided by 256 modulo 256, the third
/// the key modulo 256; the key fits in 24 bits. So [`Trigram::to_u32`]
/// tells trigrams apart and `from_bytes` of the decoded bytes rebuilds them.
pub proof fn lemma_trigram_key_roundtrip(a: u8, b: u8, c: u8)
    ensures
        0 <= trigram_key(a, b, c) < 0x0100_0000,
        trigram_key(a, b, c) / 65536 == a,
        (trigram_key(a, b, c) / 256) % 256 == b,
        trigram_key(a, b, c) % 256 == c,
{
    let k = trigram_key(a, b, c);
    assert(k == a * 65536 + b * 256 + c);
    assert(0 <= k < 0x0100_0000 && k / 65536 == a && (k / 256) % 256 == b && k % 256 == c) by (nonlinear_arith)
        requires
            k == a * 65536 + b * 256 + c,
            0 <= a < 256,
            0 <= b < 256,
            0 <= c < 256,
    ;
}

fn push_escaped(out: &mut Vec<u8>, b: u8)
    ensures
        final(out)@ == old(out)@ + escaped_byte(b),
{
    if (0x21 <= b && b <= 0x7e) || b == 0x20 {
        out.push(b);
        assert(final(out)@ =~= old(out)@ + escaped_byte(b));
    } else {
        let hi = b / 16;
        let lo = b % 16;
        out.push(92u8);
        out.push(120u8);
        out.push(if hi < 10 { 48u8 + hi } else { 87u8 + hi });
        out.push(if lo < 10 { 48u8 + lo } else { 87u8 + lo });
        assert(final(out)@ =~= old(out)@ + escaped_byte(b));
    }
}

impl Trigram {
    /// The three bytes of the trigram as a tuple.
    pub open spec fn bytes(self) -> (u8, u8, u8) {
        (self.0[0], self.0[1], self.0[2])
    }

    /// Construct a trigram from three individual bytes.
    pub fn from_bytes(a: u8, b: u8, c: u8) -> (r: Self)
        ensures
            r.bytes() == (a, b, c),
    {
        Trigram([a, b, c])
    }

    /// Pack the three bytes into the lower 24 bits:
    /// `(byte0 << 16) | (byte1 << 8) | byte2`.
    pub fn to_u32(self) -> (r: u32)
        ensures
            r == trigram_key(self.0[0], self.0[1], self.0[2]),
            r < 0x0100_0000,
    {
        (self.0[0] as u32) * 65536 + (self.0[1] as u32) * 256 + (self.0[2] as u32)
    }

    /// The printed form: graphic ASCII bytes and spaces as themselves, every
    /// other byte as `\x` followed by two lower-case hex digits.
    pub fn to_string(&self) -> (r: String)
        ensures
            r@ == ascii_chars(trigram_display_bytes(*self)),
    {
        let mut out: Vec<u8> = Vec::new();
        push_escaped(&mut out, self.0[0]);
        push_escaped(&mut out, self.0[1]);
        push_escaped(&mut out, self.0[2]);
        proof {
            assert(out@ =~= trigram_display_bytes(*self));
            assert forall|i: int| 0 <= i < out@.len() implies #[trigger] out@[i] < 128 by {
                let e0 = escaped_byte(self.0[0]);
                let e1 = escaped_byte(self.0[1]);
                if i < e0.len() {
                } else if i < e0.len() + e1.len() {
                } else {
                }
            }
        }
        ascii_string(out.as_slice())
    }
}

/// The language an extension (without the leading dot) stands for.
pub open spec fn extension_language(ext: Seq<char>) -> Language {
    if ext == "rs"@ {
        Language::Rust
    } else if ext == "py"@ || ext == "pyi"@ {
        Language::Python
    } else if ext == "ts"@ || ext == "tsx"@ {
        Language::TypeScript
    } else if ext == "js"@ || ext == "jsx"@ || ext == "mjs"@ || ext == "cjs"@ {
        Language::JavaScript
    } else if ext == "go"@ {
        Language::Go
    } else if ext == "c"@ || ext == "h"@ {
        Language::C
    } else if ext == "cpp"@ || ext == "cxx"@ || ext == "cc"@ || ext == "hpp"@ || ext == "hxx"@
        || ext == "hh"@ {
        Language::Cpp
    } else if ext == "java"@ {
        Language::Java
    } else if ext == "rb"@ {
        Language::Ruby
    } else if ext == "sh"@ || ext == "bash"@ || ext == "zsh"@ || ext == "fish"@ {
        Language::Shell
    } else if ext == "md"@ || ext == "markdown"@ {
        Language::Markdown
    } else {
        Language::Unknown
    }
}

/// The extensions that name a language, with the language each names;
/// every other extension is unknown (for instance `json`, `txt`, `RS` or the
/// empty extension).
pub proof fn lemma_extension_table(ext: Seq<char>)
    ensures
        extension_language("rs"@) == Language::Rust,
        extension_language("py"@) == Language::Python,
        extension_language("pyi"@) == Language::Python,
        extension_language("ts"@) == Language::TypeScript,
        extension_language("tsx"@) == Language::TypeScript,
        extension_language("js"@) == Language::JavaScript,
        extension_language("jsx"@) == Language::JavaScript,
        extension_language("mjs"@) == Language::JavaScript,
        extension_language("cjs"@) == Language::JavaScript,
        extension_language("go"@) == Language::Go,
        extension_language("c"@) == Language::C,
        extension_language("h"@) == Language::C,
        extension_language("cpp"@) == Language::Cpp,
        extension_language("cxx"@) == Language::Cpp,
        extension_language("cc"@) == Language::Cpp,
        extension_language("hpp"@) == Language::Cpp,
        extension_language("hxx"@) == Language::Cpp,
        extension_language("hh"@) == Language::Cpp,
        extension_language("java"@) == Language::Java,
        extension_language("rb"@) == Language::Ruby,
        extension_language("sh"@) == Language::Shell,
        extension_language("bash"@) == Language::Shell,
        extension_language("zsh"@) == Language::Shell,
        extension_language("fish"@) == Language::Shell,
        extension_language("md"@) == Language::Markdown,
        extension_language("markdown"@) == Language::Markdown,
        extension_language(ext) != Language::Unknown ==> (
            ext == "rs"@ || ext == "py"@ || ext == "pyi"@ || ext == "ts"@ || ext == "tsx"@ || ext == "js"@ ||
            ext == "jsx"@ || ext == "mjs"@ || ext == "cjs"@ || ext == "go"@ || ext == "c"@ || ext == "h"@ ||
            ext == "cpp"@ || ext == "cxx"@ || ext == "cc"@ || ext == "hpp"@ || ext == "hxx"@ ||
            ext == "hh"@ || ext == "java"@ || ext == "rb"@ || ext == "sh"@ || ext == "bash"@ ||
            ext == "zsh"@ || ext == "fish"@ || ext == "md"@ || ext == "markdown"@
        ),
{
    reveal_strlit("rs");
    reveal_strlit("py");
    reveal_strlit("pyi");
    reveal_strlit("ts");
    reveal_strlit("tsx");
    reveal_strlit("js");
    reveal_strlit("jsx");
    reveal_strlit("mjs");
    reveal_strlit("cjs");
    reveal_strlit("go");
    reveal_strlit("c");
    reveal_strlit("h");
    reveal_strlit("cpp");
    reveal_strlit("cxx");
    reveal_strlit("cc");
    reveal_strlit("hpp");
    reveal_strlit("hxx");
    reveal_strlit("hh");
    reveal_strlit("java");
    reveal_strlit("rb");
    reveal_strlit("sh");
    reveal_strlit("bash");
    reveal_strlit("zsh");
    reveal_strlit("fish");
    reveal_strlit("md");
    reveal_strlit("markdown");
    assert(extension_language("rs"@) == Language::Rust) by {

    }
    assert(extension_language("py"@) == Language::Python) by {
        assert("py"@[0] != "rs"@[0]);
    }
    assert(extension_language("pyi"@) == Language::Python) by {
        assert("pyi"@.len() != "rs"@.len());
    }
    assert(extension_language("ts"@) == Language::TypeScript) by {
        assert("ts"@[0] != "rs"@[0]);
        assert("ts"@[0] != "py"@[0]);
        assert("ts"@.len() != "pyi"@.len());
    }
    assert(extension_language("tsx"@) == Language::TypeScript) by {
        assert("tsx"@.len() != "rs"@.len());
        assert("tsx"@.len() != "py"@.len());
        assert("tsx"@[0] != "pyi"@[0]);
    }
    assert(extension_language("js"@) == Language::JavaScript) by {
        assert("js"@[0] != "rs"@[0]);
        assert("js"@[0] != "py"@[0]);
        assert("js"@.len() != "pyi"@.len());
        assert("js"@[0] != "ts"@[0]);
        assert("js"@.len() != "tsx"@.len());
    }
    assert(extension_language("jsx"@) == Language::JavaScript) by {
        assert("jsx"@.len() != "rs"@.len());
        assert("jsx"@.len() != "py"@.len());
        assert("jsx"@[0] != "pyi"@[0]);
        assert("jsx"@.len() != "ts"@.len());
        assert("jsx"@[0] != "tsx"@[0]);
    }
    assert(extension_language("mjs"@) == Language::JavaScript) by {
        assert("mjs"@.len() != "rs"@.len());
        assert("mjs"@.len() != "py"@.len());
        assert("mjs"@[0] != "pyi"@[0]);
        assert("mjs"@.len() != "ts"@.len());
        assert("mjs"@[0] != "tsx"@[0]);
    }
    assert(extension_language("cjs"@) == Language::JavaScript) by {
        assert("cjs"@.len() != "rs"@.len());
        assert("cjs"@.len() != "py"@.len());
        assert("cjs"@[0] != "pyi"@[0]);
        assert("cjs"@.len() != "ts"@.len());
        assert("cjs"@[0] != "tsx"@[0]);
    }
    assert(extension_language("go"@) == Language::Go) by {
        assert("go"@[0] != "rs"@[0]);
        assert("go"@[0] != "py"@[0]);
        assert("go"@.len() != "pyi"@.len());
        assert("go"@[0] != "ts"@[0]);
        assert("go"@.len() != "tsx"@.len());
        assert("go"@[0] != "js"@[0]);
        assert("go"@.len() != "jsx"@.len());
        assert("go"@.len() != "mjs"@.len());
        assert("go"@.len() != "cjs"@.len());
    }
    assert(extension_language("c"@) == Language::C) by {
        assert("c"@.len() != "rs"@.len());
        assert("c"@.len() != "py"@.len());
        assert("c"@.len() != "pyi"@.len());
        assert("c"@.len() != "ts"@.len());
        assert("c"@.len() != "tsx"@.len());
        assert("c"@.len() != "js"@.len());
        assert("c"@.len() != "jsx"@.len());
        assert("c"@.len() != "mjs"@.len());
        assert("c"@.len() != "cjs"@.len());
        assert("c"@.len() != "go"@.len());
    }
    assert(extension_language("h"@) == Language::C) by {
        assert("h"@.len() != "rs"@.len());
        assert("h"@.len() != "py"@.len());
        assert("h"@.len() != "pyi"@.len());
        assert("h"@.len() != "ts"@.len());
        assert("h"@.len() != "tsx"@.len());
        assert("h"@.len() != "js"@.len());
        assert("h"@.len() != "jsx"@.len());
        assert("h"@.len() != "mjs"@.len());
        assert("h"@.len() != "cjs"@.len());
        assert("h"@.len() != "go"@.len());
    }
    assert(extension_language("cpp"@) == Language::Cpp) by {
        assert("cpp"@.len() != "rs"@.len());
        assert("cpp"@.len() != "py"@.len());
        assert("cpp"@[0] != "pyi"@[0]);
        assert("cpp"@.len() != "ts"@.len());
        assert("cpp"@[0] != "tsx"@[0]);
        assert("cpp"@.len() != "js"@.len());
        assert("cpp"@[0] != "jsx"@[0]);
        assert("cpp"@[0] != "mjs"@[0]);
        assert("cpp"@[1] != "cjs"@[1]);
        assert("cpp"@.len() != "go"@.len());
        assert("cpp"@.len() != "c"@.len());
        assert("cpp"@.len() != "h"@.len());
    }
    assert(extension_language("cxx"@) == Language::Cpp) by {
        assert("cxx"@.len() != "rs"@.len());
        assert("cxx"@.len() != "py"@.len());
        assert("cxx"@[0] != "pyi"@[0]);
        assert("cxx"@.len() != "ts"@.len());
        assert("cxx"@[0] != "tsx"@[0]);
        assert("cxx"@.len() != "js"@.len());
        assert("cxx"@[0] != "jsx"@[0]);
        assert("cxx"@[0] != "mjs"@[0]);
        assert("cxx"@[1] != "cjs"@[1]);
        assert("cxx"@.len() != "go"@.len());
        assert("cxx"@.len() != "c"@.len());
        assert("cxx"@.len() != "h"@.len());
    }
    assert(extension_language("cc"@) == Language::Cpp) by {
        assert("cc"@[0] != "rs"@[0]);
        assert("cc"@[0] != "py"@[0]);
        assert("cc"@.len() != "pyi"@.len());
        assert("cc"@[0] != "ts"@[0]);
        assert("cc"@.len() != "tsx"@.len());
        assert("cc"@[0] != "js"@[0]);
        assert("cc"@.len() != "jsx"@.len());
        assert("cc"@.len() != "mjs"@.len());
        assert("cc"@.len() != "cjs"@.len());
        assert("cc"@[0] != "go"@[0]);
        assert("cc"@.len() != "c"@.len());
        assert("cc"@.len() != "h"@.len());
    }
    assert(extension_language("hpp"@) == Language::Cpp) by {
        assert("hpp"@.len() != "rs"@.len());
        assert("hpp"@.len() != "py"@.len());
        assert("hpp"@[0] != "pyi"@[0]);
        assert("hpp"@.len() != "ts"@.len());
        assert("hpp"@[0] != "tsx"@[0]);
        assert("hpp"@.len() != "js"@.len());
        assert("hpp"@[0] != "jsx"@[0]);
        assert("hpp"@[0] != "mjs"@[0]);
        assert("hpp"@[0] != "cjs"@[0]);
        assert("hpp"@.len() != "go"@.len());
        assert("hpp"@.len() != "c"@.len());
        assert("hpp"@.len() != "h"@.len());
    }
    assert(extension_language("hxx"@) == Language::Cpp) by {
        assert("hxx"@.len() != "rs"@.len());
        assert("hxx"@.len() != "py"@.len());
        assert("hxx"@[0] != "pyi"@[0]);
        assert("hxx"@.len() != "ts"@.len());
        assert("hxx"@[0] != "tsx"@[0]);
        assert("hxx"@.len() != "js"@.len());
        assert("hxx"@[0] != "jsx"@[0]);
        assert("hxx"@[0] != "mjs"@[0]);
        assert("hxx"@[0] != "cjs"@[0]);
        assert("hxx"@.len() != "go"@.len());
        assert("hxx"@.len() != "c"@.len());
        assert("hxx"@.len() != "h"@.len());
    }
    assert(extension_language("hh"@) == Language::Cpp) by {
        assert("hh"@[0] != "rs"@[0]);
        assert("hh"@[0] != "py"@[0]);
        assert("hh"@.len() != "pyi"@.len());
        assert("hh"@[0] != "ts"@[0]);
        assert("hh"@.len() != "tsx"@.len());
        assert("hh"@[0] != "js"@[0]);
        assert("hh"@.len() != "jsx"@.len());
        assert("hh"@.len() != "mjs"@.len());
        assert("hh"@.len() != "cjs"@.len());
        assert("hh"@[0] != "go"@[0]);
        assert("hh"@.len() != "c"@.len());
        assert("hh"@.len() != "h"@.len());
    }
    assert(extension_language("java"@) == Language::Java) by {
        assert("java"@.len() != "rs"@.len());
        assert("java"@.len() != "py"@.len());
        assert("java"@.len() != "pyi"@.len());
        assert("java"@.len() != "ts"@.len());
        assert("java"@.len() != "tsx"@.len());
        assert("java"@.len() != "js"@.len());
        assert("java"@.len() != "jsx"@.len());
        assert("java"@.len() != "mjs"@.len());
        assert("java"@.len() != "cjs"@.len());
        assert("java"@.len() != "go"@.len());
        assert("java"@.len() != "c"@.len());
        assert("java"@.len() != "h"@.len());
        assert("java"@.len() != "cpp"@.len());
        assert("java"@.len() != "cxx"@.len());
        assert("java"@.len() != "cc"@.len());
        assert("java"@.len() != "hpp"@.len());
        assert("java"@.len() != "hxx"@.len());
        assert("java"@.len() != "hh"@.len());
    }
    assert(extension_language("rb"@) == Language::Ruby) by {
        assert("rb"@[1] != "rs"@[1]);
        assert("rb"@[0] != "py"@[0]);
        assert("rb"@.len() != "pyi"@.len());
        assert("rb"@[0] != "ts"@[0]);
        assert("rb"@.len() != "tsx"@.len());
        assert("rb"@[0] != "js"@[0]);
        assert("rb"@.len() != "jsx"@.len());
        assert("rb"@.len() != "mjs"@.len());
        assert("rb"@.len() != "cjs"@.len());
        assert("rb"@[0] != "go"@[0]);
        assert("rb"@.len() != "c"@.len());
        assert("rb"@.len() != "h"@.len());
        assert("rb"@.len() != "cpp"@.len());
        assert("rb"@.len() != "cxx"@.len());
        assert("rb"@[0] != "cc"@[0]);
        assert("rb"@.len() != "hpp"@.len());
        assert("rb"@.len() != "hxx"@.len());
        assert("rb"@[0] != "hh"@[0]);
        assert("rb"@.len() != "java"@.len());
    }
    assert(extension_language("sh"@) == Language::Shell) by {
        assert("sh"@[0] != "rs"@[0]);
        assert("sh"@[0] != "py"@[0]);
        assert("sh"@.len() != "pyi"@.len());
        assert("sh"@[0] != "ts"@[0]);
        assert("sh"@.len() != "tsx"@.len());
        assert("sh"@[0] != "js"@[0]);
        assert("sh"@.len() != "jsx"@.len());
        assert("sh"@.len() != "mjs"@.len());
        assert("sh"@.len() != "cjs"@.len());
        assert("sh"@[0] != "go"@[0]);
        assert("sh"@.len() != "c"@.len());
        assert("sh"@.len() != "h"@.len());
        assert("sh"@.len() != "cpp"@.len());
        assert("sh"@.len() != "cxx"@.len());
        assert("sh"@[0] != "cc"@[0]);
        assert("sh"@.len() != "hpp"@.len());
        assert("sh"@.len() != "hxx"@.len());
        assert("sh"@[0] != "hh"@[0]);
        assert("sh"@.len() != "java"@.len());
        assert("sh"@[0] != "rb"@[0]);
    }
    assert(extension_language("bash"@) == Language::Shell) by {
        assert("bash"@.len() != "rs"@.len());
        assert("bash"@.len() != "py"@.len());
        assert("bash"@.len() != "pyi"@.len());
        assert("bash"@.len() != "ts"@.len());
        assert("bash"@.len() != "tsx"@.len());
        assert("bash"@.len() != "js"@.len());
        assert("bash"@.len() != "jsx"@.len());
        assert("bash"@.len() != "mjs"@.len());
        assert("bash"@.len() != "cjs"@.len());
        assert("bash"@.len() != "go"@.len());
        assert("bash"@.len() != "c"@.len());
        assert("bash"@.len() != "h"@.len());
        assert("bash"@.len() != "cpp"@.len());
        assert("bash"@.len() != "cxx"@.len());
        assert("bash"@.len() != "cc"@.len());
        assert("bash"@.len() != "hpp"@.len());
        assert("bash"@.len() != "hxx"@.len());
        assert("bash"@.len() != "hh"@.len());
        assert("bash"@[0] != "java"@[0]);
        assert("bash"@.len() != "rb"@.len());
    }
    assert(extension_language("zsh"@) == Language::Shell) by {
        assert("zsh"@.len() != "rs"@.len());
        assert("zsh"@.len() != "py"@.len());
        assert("zsh"@[0] != "pyi"@[0]);
        assert("zsh"@.len() != "ts"@.len());
        assert("zsh"@[0] != "tsx"@[0]);
        assert("zsh"@.len() != "js"@.len());
        assert("zsh"@[0] != "jsx"@[0]);
        assert("zsh"@[0] != "mjs"@[0]);
        assert("zsh"@[0] != "cjs"@[0]);
        assert("zsh"@.len() != "go"@.len());
        assert("zsh"@.len() != "c"@.len());
        assert("zsh"@.len() != "h"@.len());
        assert("zsh"@[0] != "cpp"@[0]);
        assert("zsh"@[0] != "cxx"@[0]);
        assert("zsh"@.len() != "cc"@.len());
        assert("zsh"@[0] != "hpp"@[0]);
        assert("zsh"@[0] != "hxx"@[0]);
        assert("zsh"@.len() != "hh"@.len());
        assert("zsh"@.len() != "java"@.len());
        assert("zsh"@.len() != "rb"@.len());
    }
    assert(extension_language("fish"@) == Language::Shell) by {
        assert("fish"@.len() != "rs"@.len());
        assert("fish"@.len() != "py"@.len());
        assert("fish"@.len() != "pyi"@.len());
        assert("fish"@.len() != "ts"@.len());
        assert("fish"@.len() != "tsx"@.len());
        assert("fish"@.len() != "js"@.len());
        assert("fish"@.len() != "jsx"@.len());
        assert("fish"@.len() != "mjs"@.len());
        assert("fish"@.len() != "cjs"@.len());
        assert("fish"@.len() != "go"@.len());
        assert("fish"@.len() != "c"@.len());
        assert("fish"@.len() != "h"@.len());
        assert("fish"@.len() != "cpp"@.len());
        assert("fish"@.len() != "cxx"@.len());
        assert("fish"@.len() != "cc"@.len());
        assert("fish"@.len() != "hpp"@.len());
        assert("fish"@.len() != "hxx"@.len());
        assert("fish"@.len() != "hh"@.len());
        assert("fish"@[0] != "java"@[0]);
        assert("fish"@.len() != "rb"@.len());
    }
    assert(extension_language("md"@) == Language::Markdown) by {
        assert("md"@[0] != "rs"@[0]);
        assert("md"@[0] != "py"@[0]);
        assert("md"@.len() != "pyi"@.len());
        assert("md"@[0] != "ts"@[0]);
        assert("md"@.len() != "tsx"@.len());
        assert("md"@[0] != "js"@[0]);
        assert("md"@.len() != "jsx"@.len());
        assert("md"@.len() != "mjs"@.len());
        assert("md"@.len() != "cjs"@.len());
        assert("md"@[0] != "go"@[0]);
        assert("md"@.len() != "c"@.len());
        assert("md"@.len() != "h"@.len());
        assert("md"@.len() != "cpp"@.len());
        assert("md"@.len() != "cxx"@.len());
        assert("md"@[0] != "cc"@[0]);
        assert("md"@.len() != "hpp"@.len());
        assert("md"@.len() != "hxx"@.len());
        assert("md"@[0] != "hh"@[0]);
        assert("md"@.len() != "java"@.len());
        assert("md"@[0] != "rb"@[0]);
        assert("md"@[0] != "sh"@[0]);
        assert("md"@.len() != "bash"@.len());
        assert("md"@.len() != "zsh"@.len());
        assert("md"@.len() != "fish"@.len());
    }
    assert(extension_language("markdown"@) == Language::Markdown) by {
        assert("markdown"@.len() != "rs"@.len());
        assert("markdown"@.len() != "py"@.len());
        assert("markdown"@.len() != "pyi"@.len());
        assert("markdown"@.len() != "ts"@.len());
        assert("markdown"@.len() != "tsx"@.len());
        assert("markdown"@.len() != "js"@.len());
        assert("markdown"@.len() != "jsx"@.len());
        assert("markdown"@.len() != "mjs"@.len());
        assert("markdown"@.len() != "cjs"@.len());
        assert("markdown"@.len() != "go"@.len());
        assert("markdown"@.len() != "c"@.len());
        assert("markdown"@.len() != "h"@.len());
        assert("markdown"@.len() != "cpp"@.len());
        assert("markdown"@.len() != "cxx"@.len());
        assert("markdown"@.len() != "cc"@.len());
        assert("markdown"@.len() != "hpp"@.len());
        assert("markdown"@.len() != "hxx"@.len());
        assert("markdown"@.len() != "hh"@.len());
        assert("markdown"@.len() != "java"@.len());
        assert("markdown"@.len() != "rb"@.len());
        assert("markdown"@.len() != "sh"@.len());
        assert("markdown"@.len() != "bash"@.len());
        assert("markdown"@.len() != "zsh"@.len());
        assert("markdown"@.len() != "fish"@.len());
    }
}

/// The display name of a language.
pub open spec fn language_name(l: Language) -> Seq<char> {
    match l {
        Language::Rust => "Rust"@,
        Language::Python => "Python"@,
        Language::TypeScript => "TypeScript"@,
        Language::JavaScript => "JavaScript"@,
        Language::Go => "Go"@,
        Language::C => "C"@,
        Language::Cpp => "C++"@,
        Language::Java => "Java"@,
        Language::Ruby => "Ruby"@,
        Language::Shell => "Shell"@,
        Language::Markdown => "Markdown"@,
        Language::Unknown => "Unknown"@,
    }
}

/// The display name of a symbol kind.
pub open spec fn symbol_kind_name(k: SymbolKind) -> Seq<char> {
    match k {
        SymbolKind::Function => "Function"@,
        SymbolKind::Struct => "Struct"@,
        SymbolKind::Trait => "Trait"@,
        SymbolKind::Enum => "Enum"@,
        SymbolKind::Interface => "Interface"@,
        SymbolKind::Class => "Class"@,
        SymbolKind::Method => "Method"@,
        SymbolKind::Constant => "Constant"@,
        SymbolKind::Variable => "Variable"@,
        SymbolKind::Type => "Type"@,
        SymbolKind::Module => "Module"@,
    }
}

impl Language {
    /// Detect language from a file extension string (without the leading dot).
    /// Returns `Language::Unknown` for unrecognized extensions.
    pub fn from_extension(ext: &str) -> (r: Language)
        ensures
            r == extension_language(ext@),
    {
        if str_eq(ext, "rs") {
            Language::Rust
        } else if str_eq(ext, "py") || str_eq(ext, "pyi") {
            Language::Python
        } else if str_eq(ext, "ts") || str_eq(ext, "tsx") {
            Language::TypeScript
        } else if str_eq(ext, "js") || str_eq(ext, "jsx") || str_eq(ext, "mjs") || str_eq(ext, "cjs") {
            Language::JavaScript
        } else if str_eq(ext, "go") {
            Language::Go
        } else if str_eq(ext, "c") || str_eq(ext, "h") {
            Language::C
        } else if str_eq(ext, "cpp") || str_eq(ext, "cxx") || str_eq(ext, "cc") || str_eq(ext, "hpp")
            || str_eq(ext, "hxx") || str_eq(ext, "hh") {
            Language::Cpp
        } else if str_eq(ext, "java") {
            Language::Java
        } else if str_eq(ext, "rb") {
            Language::Ruby
        } else if str_eq(ext, "sh") || str_eq(ext, "bash") || str_eq(ext, "zsh") || str_eq(ext, "fish") {
            Language::Shell
        } else if str_eq(ext, "md") || str_eq(ext, "markdown") {
            Language::Markdown
        } else {
            Language::Unknown
        }
    }

    /// The display name of the language.
    pub fn name(&self) -> (r: &'static str)
        ensures
            r@ == language_name(*self),
    {
        match self {
            Language::Rust => "Rust",
            Language::Python => "Python",
            Language::TypeScript => "TypeScript",
            Language::JavaScript => "JavaScript",
            Language::Go => "Go",
            Language::C => "C",
            Language::Cpp => "C++",
            Language::Java => "Java",
            Language::Ruby => "Ruby",
            Language::Shell => "Shell",
            Language::Markdown => "Markdown",
            Language::Unknown => "Unknown",
        }
    }

    /// The display name of the language, owned.
    pub fn to_string(&self) -> (r: String)
        ensures
            r@ == language_name(*self),
    {
        self.name().to_owned()
    }
}

impl SymbolKind {
    /// The display name of the symbol kind, owned.
    pub fn to_string(&self) -> (r: String)
        ensures
            r@ == symbol_kind_name(*self),
    {
        let s: &str = match self {
            SymbolKind::Function => "Function",
            SymbolKind::Struct => "Struct",
            SymbolKind::Trait => "Trait",
            SymbolKind::Enum => "Enum",
            SymbolKind::Interface => "Interface",
            SymbolKind::Class => "Class",
            SymbolKind::Method => "Method",
            SymbolKind::Constant => "Constant",
            SymbolKind::Variable => "Variable",
            SymbolKind::Type => "Type",
            SymbolKind::Module => "Module",
        };
        s.to_owned()
    }
}

} // verus!
