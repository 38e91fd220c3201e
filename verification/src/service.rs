//! The trusted boundary to the external object/archive parsing and
//! demangling services. Each function here wraps calls into those
//! services and converts their results to plain values; Verus believes
//! the stated contracts without reading the bodies.

use symbolic_demangle::Demangle;
use vstd::prelude::*;

use crate::error::{FileKind, LoadError, LoadOp};
use crate::raw::{RawFunc, RawLine, SegEntry, SymEntry};

verus! {

/// The format tag that sniffing a file's leading bytes yields: a pure
/// function of the bytes.
pub uninterp spec fn format_of(data: Seq<u8>) -> FileKind;

/// What parsing a debug source and enumerating its functions yields: a
/// pure function of the bytes — the reported functions, or the failing
/// step.
pub uninterp spec fn debug_parse_of(data: Seq<u8>) -> Result<Seq<crate::raw::RawFuncV>, LoadError>;

/// The content-derived debug identifier of a binary, in its canonical
/// text form: a pure function of the bytes.
pub uninterp spec fn debug_id_of(data: Seq<u8>) -> Seq<char>;

/// The companion debug file name an executable embeds: a pure function
/// of the bytes; nothing when the bytes do not parse as an executable
/// of the redirecting format, or name no companion.
pub uninterp spec fn pe_debug_file_of(data: Seq<u8>) -> Option<Seq<char>>;

/// The best-effort human-readable form of a mangled name: a pure
/// function of the name.
pub uninterp spec fn demangle_of(mangled: Seq<char>) -> Seq<char>;

/// The functions reported by the debug session of the sub-object at
/// `index` of an archive or multi-architecture container: a pure
/// function of the bytes and the index; nothing when the container or
/// that sub-object does not parse, or its debug session does not open.
pub uninterp spec fn archive_funcs_of(data: Seq<u8>, index: int) -> Option<
    Seq<crate::raw::RawFuncV>,
>;

/// The architecture names of the sub-objects of a referenced object or
/// archive member, in order: a pure function of the bytes; nothing when
/// the container or any sub-object does not parse.
pub uninterp spec fn arch_names_of(data: Seq<u8>) -> Option<Seq<Seq<char>>>;

/// The member names of a static archive, in enumeration order: a pure
/// function of the bytes; nothing when they do not parse as an archive.
pub uninterp spec fn archive_members_of(data: Seq<u8>) -> Option<Seq<Seq<char>>>;

/// The bytes of one named member of a static archive: a pure function
/// of the archive bytes and the member name; nothing when the archive
/// does not parse or holds no such member.
pub uninterp spec fn archive_member_bytes_of(data: Seq<u8>, member: Seq<char>) -> Option<Seq<u8>>;

/// The CPU type and raw CPU subtype of each Mach-O slice of a binary,
/// in slice order, with whether the binary is fat: a pure function of
/// the bytes; nothing when they do not parse as a Mach-O binary.
pub uninterp spec fn mach_cpus_of(data: Seq<u8>) -> Option<(Seq<(u32, u32)>, bool)>;

/// The symbol table of the Mach-O slice at `index`, in table order: a
/// pure function of the bytes and the index; nothing when the slice or
/// its table cannot be read.
pub uninterp spec fn mach_syms_of(data: Seq<u8>, index: int) -> Option<Seq<crate::raw::SymEntryV>>;

/// The segments of the Mach-O slice at `index`, in order: a pure
/// function of the bytes and the index; empty when the slice cannot be
/// read.
pub uninterp spec fn mach_segs_of(data: Seq<u8>, index: int) -> Seq<crate::raw::SegEntryV>;

/// The image of a parse result in plain spec values.
pub open spec fn parse_result_view(r: Result<Vec<RawFunc>, LoadError>) -> Result<
    Seq<crate::raw::RawFuncV>,
    LoadError,
> {
    match r {
        Ok(v) => Ok(v.deep_view()),
        Err(e) => Err(e),
    }
}

/// Relies on `symbolic_debuginfo::Archive::peek`: sniffs the format tag
/// from the leading bytes.
#[verifier::external_body]
pub fn peek_format(data: &[u8]) -> (r: FileKind)
    ensures
        r == format_of(data@),
{
    match symbolic_debuginfo::Archive::peek(data) {
        symbolic_debuginfo::FileFormat::Unknown => FileKind::Unknown,
        symbolic_debuginfo::FileFormat::Breakpad => FileKind::Breakpad,
        symbolic_debuginfo::FileFormat::Elf => FileKind::Elf,
        symbolic_debuginfo::FileFormat::MachO => FileKind::MachO,
        symbolic_debuginfo::FileFormat::Pdb => FileKind::Pdb,
        symbolic_debuginfo::FileFormat::Pe => FileKind::Pe,
        symbolic_debuginfo::FileFormat::SourceBundle => FileKind::SourceBundle,
        symbolic_debuginfo::FileFormat::Wasm => FileKind::Wasm,
        symbolic_debuginfo::FileFormat::PortablePdb => FileKind::PortablePdb,
    }
}

/// Declares the parsing service's function-record type so one reported
/// function can be handed to the converting wrapper; the value is
/// opaque to Verus.
#[verifier::external_type_specification]
#[verifier::external_body]
pub struct ExFunction<'a>(symbolic_debuginfo::Function<'a>);

/// Relies on field reads of `symbolic_debuginfo::Function` and
/// `LineInfo`, with `Name::as_str` and `FileInfo::path_str`: converts
/// one reported function, line table included, to plain values.
#[verifier::external_body]
fn convert_function(f: symbolic_debuginfo::Function<'_>) -> (r: RawFunc) {
    let lines = f.lines.iter().map(
        |l| RawLine { address: l.address, line: l.line, path: l.file.path_str() },
    ).collect();
    RawFunc { address: f.address, size: f.size, name: f.name.as_str().to_string(), lines }
}

/// Relies on `symbolic_debuginfo::Object::parse`,
/// `Object::debug_session` and the session's `functions` iterator:
/// parses a debug source and reports its functions with their line
/// tables. Functions the session fails to read are dropped, as the
/// resolution policy asks.
#[verifier::external_body]
pub fn debug_functions(data: &[u8]) -> (r: Result<Vec<RawFunc>, LoadError>)
    ensures
        parse_result_view(r) == debug_parse_of(data@),
{
    let object = match symbolic_debuginfo::Object::parse(data) {
        Ok(o) => o,
        Err(_) => return Err(LoadError::bare(LoadOp::Parse)),
    };
    let session = match object.debug_session() {
        Ok(s) => s,
        Err(_) => return Err(LoadError::bare(LoadOp::ReadDebugInfo)),
    };
    let mut out: Vec<RawFunc> = Vec::new();
    for f in session.functions().flatten() {
        out.push(convert_function(f));
    }
    Ok(out)
}

/// Relies on `symbolic_debuginfo::Object::parse` and
/// `Object::debug_id`, rendered in breakpad form: the content-derived
/// identifier under which text symbols are filed.
#[verifier::external_body]
pub fn object_debug_id(data: &[u8]) -> (r: Result<String, LoadError>)
    ensures
        r matches Ok(s) ==> s@ == debug_id_of(data@),
{
    match symbolic_debuginfo::Object::parse(data) {
        Ok(o) => Ok(o.debug_id().breakpad().to_string()),
        Err(_) => Err(LoadError::bare(LoadOp::Parse)),
    }
}

/// Relies on `symbolic_debuginfo::Object::parse` and
/// `PeObject::debug_file_name`: the companion debug file an executable
/// names — a pure function of the bytes. An executable that names none
/// fails with `FindDebugInfoFile`; bytes that do not parse as an
/// executable of the redirecting format fail with `Parse`.
#[verifier::external_body]
pub fn pe_debug_file_name(data: &[u8]) -> (r: Result<String, LoadError>)
    ensures
        match r {
            Ok(n) => pe_debug_file_of(data@) == Some(n@),
            Err(e) => pe_debug_file_of(data@) is None && (e.op == LoadOp::Parse || e.op
                == LoadOp::FindDebugInfoFile),
        },
{
    match symbolic_debuginfo::Object::parse(data) {
        Ok(symbolic_debuginfo::Object::Pe(pe)) => match pe.debug_file_name() {
            Some(n) => Ok(n.to_string()),
            None => Err(LoadError::bare(LoadOp::FindDebugInfoFile)),
        },
        Ok(_) => Err(LoadError::bare(LoadOp::Parse)),
        Err(_) => Err(LoadError::bare(LoadOp::Parse)),
    }
}

/// Relies on `symbolic_common::Name::new` and
/// `symbolic_demangle::Demangle::try_demangle` with complete options:
/// demangles a name, falling back to the name itself.
#[verifier::external_body]
pub fn demangle(mangled: &str) -> (r: String)
    ensures
        r@ == demangle_of(mangled@),
{
    symbolic_common::Name::new(
        mangled,
        symbolic_common::NameMangling::Mangled,
        symbolic_common::Language::Unknown,
    ).try_demangle(symbolic_demangle::DemangleOptions::complete()).to_string()
}

/// Declares the low-level Mach-O object type so the slice-reading
/// helper can hand one slice of a fat binary between trusted bodies;
/// the value is opaque to Verus.
#[verifier::external_type_specification]
#[verifier::external_body]
pub struct ExMachO<'a>(goblin::mach::MachO<'a>);

/// Relies on `goblin::mach::Mach::parse` and the multi-architecture
/// iterator: the slice at `index` — the binary itself, at index 0, for
/// a plain binary; the parseable Mach-O members in order for a fat one.
/// The slice-view wrappers below all enumerate slices through this one
/// reading, so their indices agree.
#[verifier::external_body]
fn mach_nth_slice<'a>(data: &'a [u8], index: usize) -> (r: Option<goblin::mach::MachO<'a>>) {
    match goblin::mach::Mach::parse(data).ok()? {
        goblin::mach::Mach::Binary(m) => if index == 0 {
            Some(m)
        } else {
            None
        },
        goblin::mach::Mach::Fat(multi) => (&multi).into_iter().filter_map(
            |e| match e {
                Ok(goblin::mach::SingleArch::MachO(m)) => Some(m),
                _ => None,
            },
        ).nth(index),
    }
}

/// Relies on `goblin::mach::Mach::parse` and field reads of
/// `goblin::mach::header::Header`: the CPU type and raw CPU subtype of
/// each slice, in slice order, and whether the binary is fat — all a
/// pure function of the bytes; nothing when the bytes do not parse.
#[verifier::external_body]
pub fn mach_slice_cpus(data: &[u8]) -> (r: Result<(Vec<(u32, u32)>, bool), LoadError>)
    ensures
        match r {
            Ok(p) => mach_cpus_of(data@) == Some((p.0@, p.1)),
            Err(e) => mach_cpus_of(data@) is None && e.op == LoadOp::ParseWithGoblin,
        },
{
    let fat = match goblin::mach::Mach::parse(data) {
        Ok(goblin::mach::Mach::Fat(_)) => true,
        Ok(goblin::mach::Mach::Binary(_)) => false,
        Err(_) => return Err(LoadError::bare(LoadOp::ParseWithGoblin)),
    };
    let mut v: Vec<(u32, u32)> = Vec::new();
    let mut i: usize = 0;
    while let Some(m) = mach_nth_slice(data, i) {
        v.push((m.header.cputype, m.header.cpusubtype));
        i += 1;
    }
    Ok((v, fat))
}

/// Relies on `goblin::mach::MachO::symbols` and field reads of `Nlist`:
/// the symbol table of the slice at `index` as plain entries, in table
/// order — a pure function of the bytes and the index; nothing when the
/// slice or its table cannot be read.
#[verifier::external_body]
pub fn mach_slice_symbols(data: &[u8], index: usize) -> (r: Result<Vec<SymEntry>, LoadError>)
    ensures
        match r {
            Ok(v) => mach_syms_of(data@, index as int) == Some(v.deep_view()),
            Err(e) => mach_syms_of(data@, index as int) is None && e.op == LoadOp::ReadSymbolTable,
        },
{
    let m = match mach_nth_slice(data, index) {
        Some(m) => m,
        None => return Err(LoadError::bare(LoadOp::ReadSymbolTable)),
    };
    let mut v = Vec::new();
    for sym in m.symbols() {
        let (name, nl) = match sym {
            Ok(s) => s,
            Err(_) => return Err(LoadError::bare(LoadOp::ReadSymbolTable)),
        };
        let name = name.to_string();
        v.push(SymEntry { name, n_type: nl.n_type, n_sect: nl.n_sect as u64, n_value: nl.n_value });
    }
    Ok(v)
}

/// Relies on the `goblin::mach::segment::Segments` iterator,
/// `Segment::name` and the `vmaddr` field: the segments of the slice at
/// `index` as plain entries, in order — a pure function of the bytes
/// and the index; empty when the slice cannot be read.
#[verifier::external_body]
pub fn mach_slice_segments(data: &[u8], index: usize) -> (r: Vec<SegEntry>)
    ensures
        r.deep_view() == mach_segs_of(data@, index as int),
{
    let m = match mach_nth_slice(data, index) {
        Some(m) => m,
        None => return Vec::new(),
    };
    let mut v = Vec::new();
    for seg in &m.segments {
        v.push(SegEntry { name: seg.name().ok().map(|n| n.to_string()), vmaddr: seg.vmaddr });
    }
    v
}

/// Relies on `goblin::archive::Archive::parse` and `Archive::members`:
/// the member names of a static archive — a pure function of the bytes;
/// nothing when the bytes do not parse as an archive.
#[verifier::external_body]
pub fn archive_members(data: &[u8]) -> (r: Result<Vec<String>, LoadError>)
    ensures
        match r {
            Ok(v) => archive_members_of(data@) == Some(v.deep_view()),
            Err(e) => archive_members_of(data@) is None && e.op == LoadOp::ParseAr,
        },
{
    match goblin::archive::Archive::parse(data) {
        Ok(a) => Ok(a.members().iter().map(|n| n.to_string()).collect()),
        Err(_) => Err(LoadError::bare(LoadOp::ParseAr)),
    }
}

/// Relies on `goblin::archive::Archive::parse` and `Archive::extract`:
/// the bytes of one named member of a static archive — a pure function
/// of the archive bytes and the member name; nothing when the archive
/// does not parse or holds no such member.
#[verifier::external_body]
pub fn archive_extract(data: &[u8], member: &str) -> (r: Result<Vec<u8>, LoadError>)
    ensures
        match r {
            Ok(b) => archive_member_bytes_of(data@, member@) == Some(b@),
            Err(e) => archive_member_bytes_of(data@, member@) is None && (e.op == LoadOp::ParseAr
                || e.op == LoadOp::ReadArEntry),
        },
{
    let a = match goblin::archive::Archive::parse(data) {
        Ok(a) => a,
        Err(_) => return Err(LoadError::bare(LoadOp::ParseAr)),
    };
    match a.extract(member, data) {
        Ok(bytes) => Ok(bytes.to_vec()),
        Err(_) => Err(LoadError::bare(LoadOp::ReadArEntry)),
    }
}

/// Relies on `symbolic_debuginfo::Archive::parse`, its `objects`
/// iterator, `Object::arch` and `Arch::name`: the architecture names of
/// the sub-objects of a referenced object or archive member, in order —
/// a pure function of the bytes; nothing when the container or any
/// sub-object fails to parse, which fails the whole read as the
/// reconstruction's failure policy asks.
#[verifier::external_body]
pub fn archive_arch_names(data: &[u8]) -> (r: Result<Vec<String>, LoadError>)
    ensures
        match r {
            Ok(v) => arch_names_of(data@) == Some(v.deep_view()),
            Err(e) => arch_names_of(data@) is None && (e.op == LoadOp::ParseRef || e.op
                == LoadOp::ParseFatEntry),
        },
{
    let archive = match symbolic_debuginfo::Archive::parse(data) {
        Ok(a) => a,
        Err(_) => return Err(LoadError::bare(LoadOp::ParseRef)),
    };
    let mut v = Vec::new();
    for object in archive.objects() {
        match object {
            Ok(o) => v.push(o.arch().name().to_string()),
            Err(_) => return Err(LoadError::bare(LoadOp::ParseFatEntry)),
        }
    }
    Ok(v)
}

/// Relies on `symbolic_debuginfo::Archive::parse`, its `objects`
/// iterator, `Object::debug_session` and the session's `functions`
/// iterator: the functions reported by the sub-object at `index` — a
/// pure function of the bytes and the index; nothing when the container
/// or that sub-object fails to parse or its debug session fails to
/// open. Functions the session fails to read are dropped.
#[verifier::external_body]
pub fn archive_object_functions(data: &[u8], index: usize) -> (r: Result<Vec<RawFunc>, LoadError>)
    ensures
        match r {
            Ok(v) => archive_funcs_of(data@, index as int) == Some(v.deep_view()),
            Err(e) => archive_funcs_of(data@, index as int) is None && (e.op == LoadOp::ParseRef
                || e.op == LoadOp::ParseFatEntry || e.op == LoadOp::ReadDebugInfoRef),
        },
{
    let archive = symbolic_debuginfo::Archive::parse(data).map_err(
        |_| LoadError::bare(LoadOp::ParseRef),
    )?;
    let object = match archive.objects().nth(index) {
        Some(Ok(o)) => o,
        _ => return Err(LoadError::bare(LoadOp::ParseFatEntry)),
    };
    let session = object.debug_session().map_err(|_| LoadError::bare(LoadOp::ReadDebugInfoRef))?;
    let mut out: Vec<RawFunc> = Vec::new();
    for f in session.functions().flatten() {
        out.push(convert_function(f));
    }
    Ok(out)
}

} // verus!
