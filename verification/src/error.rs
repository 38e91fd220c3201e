//! The structured errors a load can end in: an operation label, as the
//! diagnostics name the failing step, and the path or format the step
//! worked on, when one is known. Rendering to text is the caller's
//! concern.

use vstd::prelude::*;
use vstd::string::StringExecFns;

verus! {

/// The format tag sniffed from a file's leading bytes.
#[derive(Clone, Copy, PartialEq, Eq, Structural, Debug)]
pub enum FileKind {
    Unknown,
    Breakpad,
    Elf,
    MachO,
    Pdb,
    Pe,
    SourceBundle,
    Wasm,
    PortablePdb,
}

/// What `kind_name` returns for each format tag: the name the parsing
/// service gives the format.
pub open spec fn spec_kind_name(k: FileKind) -> Seq<char> {
    match k {
        FileKind::Unknown => "unknown"@,
        FileKind::Breakpad => "breakpad"@,
        FileKind::Elf => "elf"@,
        FileKind::MachO => "macho"@,
        FileKind::Pdb => "pdb"@,
        FileKind::Pe => "pe"@,
        FileKind::SourceBundle => "sourcebundle"@,
        FileKind::Wasm => "wasm"@,
        FileKind::PortablePdb => "portablepdb"@,
    }
}

impl FileKind {
    /// The format's name, as the parsing service names it.
    pub fn kind_name(&self) -> (r: &'static str)
        ensures
            r@ == spec_kind_name(*self),
    {
        match self {
            FileKind::Unknown => "unknown",
            FileKind::Breakpad => "breakpad",
            FileKind::Elf => "elf",
            FileKind::MachO => "macho",
            FileKind::Pdb => "pdb",
            FileKind::Pe => "pe",
            FileKind::SourceBundle => "sourcebundle",
            FileKind::Wasm => "wasm",
            FileKind::PortablePdb => "portablepdb",
        }
    }
}

/// The operation a failed load was performing. Each label corresponds
/// to one step of loading, so the caller can render the diagnostic the
/// step calls for.
#[derive(Clone, Copy, PartialEq, Eq, Structural, Debug)]
pub enum LoadOp {
    /// Reading the referenced file itself.
    Read,
    /// Parsing the file's bytes as an object.
    Parse,
    /// Parsing the file's bytes with the low-level object reader.
    ParseWithGoblin,
    /// Opening the debug session of a parsed object.
    ReadDebugInfo,
    /// Finding the name of the companion debug file of an executable.
    FindDebugInfoFile,
    /// Reading the named companion debug file.
    ReadDebugFile,
    /// Finding the base name under which text symbols are filed.
    ReadBreakpadSymbolsFor,
    /// Reading the expected text-symbol file.
    ReadSymbolsFile,
    /// The sniffed format is none the loaders support.
    ParseFormat,
    /// No slice of a multi-architecture binary matches this build.
    FindFatCode,
    /// Walking a binary's symbol table.
    ReadSymbolTable,
    /// Reading a referenced static archive from disk.
    ReadAr,
    /// Parsing a referenced static archive.
    ParseAr,
    /// Extracting one member of a referenced archive.
    ReadArEntry,
    /// Reading a referenced standalone object file from disk.
    ReadObjectFile,
    /// Parsing a referenced object or archive member.
    ParseRef,
    /// Parsing one slice of a referenced multi-architecture object.
    ParseFatEntry,
    /// No slice of a referenced object matches the wanted architecture.
    FindArchCode,
    /// Opening the debug session of a referenced object.
    ReadDebugInfoRef,
}

/// A load failure: the failing operation, and the path, format or
/// architecture it concerned, when the operation names one.
#[derive(Debug)]
pub struct LoadError {
    pub op: LoadOp,
    pub subject: Option<String>,
}

impl LoadError {
    /// An error with no named subject.
    pub fn bare(op: LoadOp) -> (r: LoadError)
        ensures
            r.op == op,
            r.subject is None,
    {
        LoadError { op, subject: None }
    }

    /// An error naming what the operation worked on.
    pub fn on(op: LoadOp, subject: &str) -> (r: LoadError)
        ensures
            r.op == op,
            r.subject matches Some(s) && s@ == subject@,
    {
        LoadError { op, subject: Some(subject.to_owned()) }
    }
}

} // verus!
