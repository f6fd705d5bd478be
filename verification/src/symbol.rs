use vstd::prelude::*;

verus! {

// ---------------------------------------------------------------------------
// Demangling, through the outside demanglers.
// ---------------------------------------------------------------------------

/// What the Rust demangler returns for a mangled name, when it accepts it.
/// The result depends on the name alone.
pub uninterp spec fn rust_demangled_of(s: Seq<char>) -> Option<Seq<char>>;

/// What the C++ (Itanium) demangler returns for a mangled name, when it
/// accepts it. The result depends on the name alone.
pub uninterp spec fn cpp_demangled_of(s: Seq<char>) -> Option<Seq<char>>;

/// Relies on rustc_demangle::try_demangle and the alternate display form of
/// its result (the form without the trailing hash).
#[verifier::external_body]
fn demangle_rust(name: &str) -> (r: Option<String>)
    ensures
        r is Some <==> rust_demangled_of(name@) is Some,
        r matches Some(d) ==> Some(d@) == rust_demangled_of(name@),
{
    match rustc_demangle::try_demangle(name) {
        Ok(d) => Some(format!("{:#}", d)),
        Err(_) => None,
    }
}

/// Relies on cpp_demangle::Symbol::new and Symbol::demangle.
#[verifier::external_body]
fn demangle_cpp(name: &str) -> (r: Option<String>)
    ensures
        r is Some <==> cpp_demangled_of(name@) is Some,
        r matches Some(d) ==> Some(d@) == cpp_demangled_of(name@),
{
    match cpp_demangle::Symbol::new(name.as_bytes()) {
        Ok(s) => s.demangle().ok(),
        Err(_) => None,
    }
}

/// The demangling policy: the Rust demangler is tried first, then the C++
/// one; a name both reject is kept verbatim.
pub open spec fn spec_demangle(s: Seq<char>) -> Seq<char> {
    match rust_demangled_of(s) {
        Some(d) => d,
        None => match cpp_demangled_of(s) {
            Some(d) => d,
            None => s,
        },
    }
}

/// The language inferred while demangling: a name the Rust demangler accepts
/// is Rust, one only the C++ demangler accepts is C++; otherwise the caller's
/// guess stands. A known language is never overwritten.
pub open spec fn spec_demangle_lang(s: Seq<char>, lang: SymbolLang) -> SymbolLang {
    if lang != SymbolLang::Unknown {
        lang
    } else if rust_demangled_of(s) is Some {
        SymbolLang::Rust
    } else if cpp_demangled_of(s) is Some {
        SymbolLang::Cpp
    } else {
        SymbolLang::Unknown
    }
}

/// Demangles a raw symbol name and reports the language it revealed.
pub fn demangle_name(name: String, lang: SymbolLang) -> (r: (String, SymbolLang))
    ensures
        r.0@ == spec_demangle(name@),
        r.1 == spec_demangle_lang(name@, lang),
{
    match demangle_rust(name.as_str()) {
        Some(d) => {
            let new_lang = if lang == SymbolLang::Unknown {
                SymbolLang::Rust
            } else {
                lang
            };
            (d, new_lang)
        },
        None => match demangle_cpp(name.as_str()) {
            Some(d) => {
                let new_lang = if lang == SymbolLang::Unknown {
                    SymbolLang::Cpp
                } else {
                    lang
                };
                (d, new_lang)
            },
            None => (name, lang),
        },
    }
}

// ---------------------------------------------------------------------------
// Symbol sources, types and languages.
// ---------------------------------------------------------------------------

/// Where a symbol was found.
#[derive(Copy, Clone, PartialEq, Eq, Structural, Debug)]
pub enum SymbolSource {
    Elf,
    Mach,
    Pe,
    Archive,
    Dwarf,
    Pdb,
}

/// Lookup priority of a source: debug information outranks object tables.
pub open spec fn spec_priority(s: SymbolSource) -> u8 {
    match s {
        SymbolSource::Dwarf | SymbolSource::Pdb => 1u8,
        SymbolSource::Elf | SymbolSource::Mach | SymbolSource::Pe | SymbolSource::Archive => 2u8,
    }
}

impl SymbolSource {
    /// The rank used to break ties between duplicate symbols; a smaller
    /// value wins, and debug information outranks object tables.
    pub fn priority(self) -> (r: u8)
        ensures
            r == spec_priority(self),
    {
        match self {
            SymbolSource::Dwarf | SymbolSource::Pdb => 1,
            SymbolSource::Elf
            | SymbolSource::Mach
            | SymbolSource::Pe
            | SymbolSource::Archive => 2,
        }
    }

    /// A short lower-case name for diagnostics.
    pub fn as_str(self) -> (r: &'static str)
        ensures
            r@ == spec_source_name(self),
    {
        match self {
            SymbolSource::Elf => "elf",
            SymbolSource::Mach => "mach",
            SymbolSource::Pe => "pe",
            SymbolSource::Archive => "archive",
            SymbolSource::Dwarf => "dwarf",
            SymbolSource::Pdb => "pdb",
        }
    }
}

pub open spec fn spec_source_name(s: SymbolSource) -> Seq<char> {
    match s {
        SymbolSource::Elf => "elf"@,
        SymbolSource::Mach => "mach"@,
        SymbolSource::Pe => "pe"@,
        SymbolSource::Archive => "archive"@,
        SymbolSource::Dwarf => "dwarf"@,
        SymbolSource::Pdb => "pdb"@,
    }
}

/// What a symbol stands for.
#[derive(Copy, Clone, PartialEq, Eq, Structural, Debug)]
pub enum SymbolType {
    Function,
    /// Static variable.
    Static,
}

/// Possible source language of a symbol.
#[derive(Copy, Clone, PartialEq, Eq, Structural, Debug)]
pub enum SymbolLang {
    Rust,
    Cpp,
    C,
    Unknown,
}

// ---------------------------------------------------------------------------
// Parsing a source name (case-insensitive).
// ---------------------------------------------------------------------------

/// Lower-cases an ASCII letter; leaves every other character alone.
pub open spec fn spec_to_lower(c: char) -> char {
    if 'A' <= c && c <= 'Z' {
        ((c as u32) + 32) as char
    } else {
        c
    }
}

pub open spec fn spec_eq_ignore_case(a: Seq<char>, b: Seq<char>) -> bool {
    a.len() == b.len() && forall|i: int|
        0 <= i < a.len() ==> spec_to_lower(a[i]) == spec_to_lower(b[i])
}

fn to_lower(c: char) -> (r: char)
    ensures
        r == spec_to_lower(c),
{
    if 'A' <= c && c <= 'Z' {
        let x = (c as u32) + 32;
        assert(97 <= x <= 122);
        char_from_u32(x)
    } else {
        c
    }
}

/// Relies on char::from_u32 for a value already known to be a valid
/// code point (an ASCII lower-case letter here).
#[verifier::external_body]
fn char_from_u32(x: u32) -> (r: char)
    requires
        97 <= x <= 122,
    ensures
        r == (x as char),
{
    char::from_u32(x).unwrap_or(' ')
}

/// Compares two strings, ignoring ASCII case.
pub fn eq_ignore_case(a: &str, b: &str) -> (r: bool)
    ensures
        r == spec_eq_ignore_case(a@, b@),
{
    let alen = a.unicode_len();
    let blen = b.unicode_len();
    if alen != blen {
        return false;
    }
    let mut i: usize = 0;
    while i < alen
        invariant
            i <= alen,
            alen == a@.len(),
            alen == b@.len(),
            forall|k: int| 0 <= k < i ==> spec_to_lower(a@[k]) == spec_to_lower(b@[k]),
        decreases alen - i,
    {
        if to_lower(a.get_char(i)) != to_lower(b.get_char(i)) {
            return false;
        }
        i = i + 1;
    }
    true
}

/// The symbol-source names that configuration accepts, case-insensitively.
pub open spec fn spec_parse_symbol_source(s: Seq<char>) -> Option<SymbolSource> {
    if spec_eq_ignore_case(s, "elf"@) {
        Some(SymbolSource::Elf)
    } else if spec_eq_ignore_case(s, "mach"@) {
        Some(SymbolSource::Mach)
    } else if spec_eq_ignore_case(s, "pe"@) {
        Some(SymbolSource::Pe)
    } else if spec_eq_ignore_case(s, "archive"@) {
        Some(SymbolSource::Archive)
    } else if spec_eq_ignore_case(s, "dwarf"@) {
        Some(SymbolSource::Dwarf)
    } else if spec_eq_ignore_case(s, "pdb"@) {
        Some(SymbolSource::Pdb)
    } else {
        None
    }
}

/// Parses one symbol-source name; rejects anything unrecognized.
pub fn parse_symbol_source(s: &str) -> (r: Option<SymbolSource>)
    ensures
        r == spec_parse_symbol_source(s@),
{
    if eq_ignore_case(s, "elf") {
        Some(SymbolSource::Elf)
    } else if eq_ignore_case(s, "mach") {
        Some(SymbolSource::Mach)
    } else if eq_ignore_case(s, "pe") {
        Some(SymbolSource::Pe)
    } else if eq_ignore_case(s, "archive") {
        Some(SymbolSource::Archive)
    } else if eq_ignore_case(s, "dwarf") {
        Some(SymbolSource::Dwarf)
    } else if eq_ignore_case(s, "pdb") {
        Some(SymbolSource::Pdb)
    } else {
        None
    }
}

// ---------------------------------------------------------------------------
// Symbols.
// ---------------------------------------------------------------------------

/// One named range of a binary: a demangled name, a virtual address, the
/// byte position backing it in the file, and its length.
pub struct Symbol {
    /// The demangled name of the symbol.
    pub name: String,
    /// The virtual address of the symbol.
    pub addr: u64,
    /// The starting byte position of the symbol in its binary.
    pub bpos: usize,
    /// The length of the symbol in its binary.
    pub blen: usize,
    /// Possible source language of the symbol.
    pub lang: SymbolLang,
    /// Where this symbol is from.
    pub source: SymbolSource,
    /// The type of this symbol.
    pub type_: SymbolType,
}

impl Symbol {
    /// Well-formedness: the address range and the byte range fit their types.
    pub open spec fn wf(&self) -> bool {
        self.addr + self.blen <= u64::MAX && self.bpos + self.blen <= usize::MAX
    }

    /// Builds a symbol from a name that is already demangled (or that must
    /// be kept verbatim).
    pub fn new_unmangled(
        name: String,
        addr: u64,
        bpos: usize,
        blen: usize,
        source: SymbolSource,
    ) -> (s: Symbol)
        requires
            addr + blen <= u64::MAX,
            bpos + blen <= usize::MAX,
        ensures
            s.wf(),
            s.name == name,
            s.addr == addr,
            s.bpos == bpos,
            s.blen == blen,
            s.source == source,
            s.lang == SymbolLang::Unknown,
            s.type_ == SymbolType::Function,
    {
        Symbol {
            name,
            addr,
            bpos,
            blen,
            lang: SymbolLang::Unknown,
            source,
            type_: SymbolType::Function,
        }
    }

    /// Builds a symbol, demangling the name: the Rust demangler is tried
    /// first, then the C++ one; a name both reject is kept verbatim. The
    /// language is updated when it was unknown and demangling revealed it.
    pub fn new(
        name: String,
        addr: u64,
        bpos: usize,
        blen: usize,
        type_: SymbolType,
        source: SymbolSource,
        lang: SymbolLang,
    ) -> (s: Symbol)
        requires
            addr + blen <= u64::MAX,
            bpos + blen <= usize::MAX,
        ensures
            s.wf(),
            s.name@ == spec_demangle(name@),
            s.lang == spec_demangle_lang(name@, lang),
            s.addr == addr,
            s.bpos == bpos,
            s.blen == blen,
            s.source == source,
            s.type_ == type_,
    {
        let (demangled, new_lang) = demangle_name(name, lang);
        Symbol { name: demangled, addr, bpos, blen, lang: new_lang, source, type_ }
    }

    pub fn address(&self) -> (r: u64)
        ensures
            r == self.addr,
    {
        self.addr
    }

    /// One byte beyond the end of the symbol.
    pub fn end_address(&self) -> (r: u64)
        requires
            self.wf(),
        ensures
            r == self.addr + self.blen,
    {
        self.addr + (self.blen as u64)
    }

    /// The virtual addresses the symbol covers, as a half-open pair.
    pub fn address_range(&self) -> (r: (u64, u64))
        requires
            self.wf(),
        ensures
            r.0 == self.addr,
            r.1 == self.addr + self.blen,
    {
        (self.addr, self.addr + (self.blen as u64))
    }

    /// Whether an address falls inside the symbol.
    pub open spec fn spec_contains(&self, addr: u64) -> bool {
        self.addr <= addr && addr < self.addr + self.blen
    }

    pub fn contains_address(&self, addr: u64) -> (r: bool)
        requires
            self.wf(),
        ensures
            r == self.spec_contains(addr),
    {
        self.addr <= addr && addr < self.addr + (self.blen as u64)
    }

    pub fn offset(&self) -> (r: usize)
        ensures
            r == self.bpos,
    {
        self.bpos
    }

    pub fn end(&self) -> (r: usize)
        requires
            self.wf(),
        ensures
            r == self.bpos + self.blen,
    {
        self.bpos + self.blen
    }

    pub fn size(&self) -> (r: usize)
        ensures
            r == self.blen,
    {
        self.blen
    }

    pub fn name(&self) -> (r: &str)
        ensures
            r@ == self.name@,
    {
        self.name.as_str()
    }

    pub fn lang(&self) -> (r: SymbolLang)
        ensures
            r == self.lang,
    {
        self.lang
    }

    pub fn source(&self) -> (r: SymbolSource)
        ensures
            r == self.source,
    {
        self.source
    }

    pub fn type_(&self) -> (r: SymbolType)
        ensures
            r == self.type_,
    {
        self.type_
    }

    /// A field-for-field copy.
    pub fn clone_symbol(&self) -> (r: Symbol)
        ensures
            r == *self,
    {
        let name_copy: String = self.name.clone();
        Symbol {
            name: name_copy,
            addr: self.addr,
            bpos: self.bpos,
            blen: self.blen,
            lang: self.lang,
            source: self.source,
            type_: self.type_,
        }
    }

    pub(crate) fn set_size(&mut self, new_size: usize)
        requires
            old(self).addr + new_size <= u64::MAX,
            old(self).bpos + new_size <= usize::MAX,

        ensures
            *final(self) == (Symbol { blen: new_size, ..*old(self) }),
            final(self).wf(),
    {
        self.blen = new_size;
    }
}

} // verus!
