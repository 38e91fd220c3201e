//! The reconstruction passes on concrete values: the symbol-address
//! walk, the read plan, the cross-referencing merge, and its treatment
//! of entries without a match.

use fix_stacks::interner::Interner;
use fix_stacks::fixer::{resolve_address, Resolution};
use fix_stacks::macho::{
    cpu_arch_name, is_within_archive, object_load_address, oso_plan, sym_func_addrs,
    sym_func_key, CPU_TYPE_ARM64, CPU_TYPE_X86, CPU_TYPE_X86_64,
};
use fix_stacks::raw::{SegEntry, SymEntry};
use fix_stacks::error::LoadOp;
use fix_stacks::fixer::build_file_info_direct;
use fix_stacks::recon::{macho_begin, recon_add_archive, recon_add_object, recon_finish, ReconState};
use fix_stacks::service::{object_debug_id, pe_debug_file_name};
use fix_stacks::symmap::SymMap;
use fix_stacks::table::FileInfo;

const N_OSO: u8 = 0x66;
const N_FUN: u8 = 0x24;

fn sym(name: &str, n_type: u8, n_sect: u64, n_value: u64) -> SymEntry {
    SymEntry { name: name.to_string(), n_type, n_sect, n_value }
}

#[test]
fn sym_func_key_joins_source_and_name() {
    assert_eq!(sym_func_key("libx.a", "main"), "libx.a:main");
}

#[test]
fn archive_members_are_recognized() {
    assert_eq!(is_within_archive("libgkrust.a(foo.o)"), Some("libgkrust.a"));
    assert_eq!(is_within_archive("foo.o"), None);
    // Without the closing parenthesis it is no archive member.
    assert_eq!(is_within_archive("libgkrust.a(foo.o"), None);
}

#[test]
fn load_address_is_the_text_segment() {
    let segs = vec![
        SegEntry { name: Some("__PAGEZERO".to_string()), vmaddr: 0 },
        SegEntry { name: Some("__TEXT".to_string()), vmaddr: 0x100000000 },
        SegEntry { name: Some("__DATA".to_string()), vmaddr: 0x100004000 },
    ];
    assert_eq!(object_load_address(&segs), 0x100000000);
    let none = vec![SegEntry { name: None, vmaddr: 7 }];
    assert_eq!(object_load_address(&none), 0);
}

#[test]
fn symbol_walk_records_function_addresses() {
    let entries = vec![
        sym("/obj/example.o", N_OSO, 0, 0),
        sym("_main", N_FUN, 1, 0x5130),
        // A function stab without a section carries no address.
        sym("_ignored", N_FUN, 0, 0x9999),
        // A non-stab entry is skipped entirely.
        sym("_other", 0x0f, 1, 0x7777),
        sym("libgkrust.a(foo.o)", N_OSO, 0, 0),
        sym("_helper", N_FUN, 1, 0x6000),
    ];
    let m = sym_func_addrs(&entries, 0x4000);
    assert_eq!(m.get("/obj/example.o:main"), Some(0x1130));
    // The archive suffix is stripped from the key.
    assert_eq!(m.get("libgkrust.a:helper"), Some(0x2000));
    assert_eq!(m.get("/obj/example.o:ignored"), None);
    assert_eq!(m.get("/obj/example.o:other"), None);
}

#[test]
fn duplicate_symbol_keys_keep_the_last_address() {
    let entries = vec![
        sym("libx.a(a.o)", N_OSO, 0, 0),
        sym("_dup", N_FUN, 1, 0x1000),
        sym("libx.a(b.o)", N_OSO, 0, 0),
        sym("_dup", N_FUN, 1, 0x2000),
    ];
    // Both keys collapse to `libx.a:dup`; the later address wins.
    let m = sym_func_addrs(&entries, 0);
    assert_eq!(m.get("libx.a:dup"), Some(0x2000));
}

#[test]
fn the_read_plan_names_archives_once_and_objects_each_time() {
    let entries = vec![
        sym("libx.a(a.o)", N_OSO, 0, 0),
        sym("/obj/c.o", N_OSO, 0, 0),
        sym("libx.a(b.o)", N_OSO, 0, 0),
        sym("/obj/c.o", N_OSO, 0, 0),
        sym("_f", N_FUN, 1, 0),
    ];
    let plan = oso_plan(&entries);
    let got: Vec<(String, bool)> =
        plan.into_iter().map(|r| (r.path, r.archive)).collect();
    assert_eq!(
        got,
        vec![
            ("libx.a".to_string(), true),
            ("/obj/c.o".to_string(), false),
            ("/obj/c.o".to_string(), false),
        ]
    );
}

#[test]
fn cpu_arch_names_match_the_parsing_service() {
    assert_eq!(cpu_arch_name(CPU_TYPE_X86, 3), "x86");
    assert_eq!(cpu_arch_name(CPU_TYPE_X86_64, 3), "x86_64");
    assert_eq!(cpu_arch_name(CPU_TYPE_X86_64, 8), "x86_64h");
    assert_eq!(cpu_arch_name(CPU_TYPE_ARM64, 0), "arm64");
    assert_eq!(cpu_arch_name(CPU_TYPE_ARM64, 2), "arm64e");
    // Capability bits in the subtype's top byte are masked off.
    assert_eq!(cpu_arch_name(CPU_TYPE_X86_64, 0x8000_0003), "x86_64");
    assert_eq!(cpu_arch_name(0x1234_5678, 0), "unknown");
}

#[test]
fn merge_rebases_matched_functions_and_drops_unmatched() {
    // The symbol table knows `known` at 0x2130; the debug source also
    // reports `orphan`, which never got its own symbol entry.
    let mut sym_addrs = SymMap::new();
    sym_addrs.insert("/obj/example.o:known".to_string(), 0x2130);

    let raw = vec![
        fix_stacks::raw::RawFunc {
            address: 0x1130,
            size: 0x28,
            name: "known".to_string(),
            lines: vec![
                fix_stacks::raw::RawLine { address: 0x1130, line: 24, path: "a.c".to_string() },
                fix_stacks::raw::RawLine { address: 0x113f, line: 25, path: "a.c".to_string() },
            ],
        },
        fix_stacks::raw::RawFunc {
            address: 0x1200,
            size: 0x10,
            name: "orphan".to_string(),
            lines: vec![
                fix_stacks::raw::RawLine { address: 0x1200, line: 9, path: "b.c".to_string() },
            ],
        },
    ];
    let mut interner = Interner::new();
    let mut func_infos = Vec::new();
    FileInfo::add(&sym_addrs, "/obj/example.o", raw, &mut interner, &mut func_infos);
    let fi = FileInfo::finish(interner, func_infos);

    // The matched function lands on its symbol-table address, its line
    // addresses shifted along.
    match resolve_address(&fi, 0x2137, false) {
        Resolution::Full { name, path, line } => {
            assert_eq!(name, "known");
            assert_eq!(path, "a.c");
            assert_eq!(line, 24);
        }
        _ => panic!("expected a full resolution"),
    }
    match resolve_address(&fi, 0x2140, false) {
        Resolution::Full { line, .. } => assert_eq!(line, 25),
        _ => panic!("expected a full resolution"),
    }
    // The unmatched function is dropped: nothing resolves in its range,
    // neither at its reported nor at any shifted address.
    assert_eq!(fi.func_infos.len(), 1);
    assert!(matches!(resolve_address(&fi, 0x1205, false), Resolution::Unresolved));
}

#[test]
fn reconstruction_reads_a_referenced_debug_source() {
    // A text-symbol body stands in for one referenced object's debug
    // info; its architecture record matches the reconstruction's.
    let sym_text = "MODULE Linux x86_64 A1B2C3D4E5F60718293A4B5C6D7E8F901 example\n\
                    FILE 0 /src/a.c\n\
                    FUNC 1130 28 0 known\n\
                    1130 f 24 0\n\
                    FUNC 1200 10 0 orphan\n\
                    1200 10 9 0\n";
    let mut sym_addrs = SymMap::new();
    sym_addrs.insert("/obj/example.o:known".to_string(), 0x2130);
    let mut st = ReconState {
        arch: "x86_64".to_string(),
        sym_addrs,
        interner: Interner::new(),
        func_infos: Vec::new(),
    };
    recon_add_object(&mut st, "/obj/example.o", sym_text.as_bytes()).unwrap();
    let fi = recon_finish(st);
    assert_eq!(fi.func_infos.len(), 1);
    match resolve_address(&fi, 0x2137, false) {
        Resolution::Full { name, path, line } => {
            assert_eq!(name, "known");
            assert_eq!(path, "/src/a.c");
            assert_eq!(line, 24);
        }
        _ => panic!("expected a full resolution"),
    }
}

#[test]
fn begin_takes_a_thin_binary_whole() {
    // A minimal 64-bit Mach-O header: x86_64, no load commands.
    let mut data = Vec::new();
    for w in [0xfeedfacfu32, 0x0100_0007, 3, 2, 0, 0, 0, 0] {
        data.extend_from_slice(&w.to_le_bytes());
    }
    match macho_begin(&data, CPU_TYPE_X86_64) {
        Ok((st, plan)) => {
            assert_eq!(st.arch, "x86_64");
            assert!(plan.is_empty());
            assert!(st.func_infos.is_empty());
            assert_eq!(st.sym_addrs.get("a:b"), None);
        }
        Err(_) => panic!("expected a begun reconstruction"),
    }
    // A thin binary is taken whatever the target architecture.
    match macho_begin(&data, CPU_TYPE_ARM64) {
        Ok((st, _)) => assert_eq!(st.arch, "x86_64"),
        Err(_) => panic!("expected a begun reconstruction"),
    }
}

#[test]
fn begin_rejects_a_fat_binary_without_a_matching_slice() {
    // A fat header with no slices at all.
    let mut data = Vec::new();
    data.extend_from_slice(&0xcafebabeu32.to_be_bytes());
    data.extend_from_slice(&0u32.to_be_bytes());
    data.extend_from_slice(&[0u8; 24]);
    match macho_begin(&data, CPU_TYPE_X86_64) {
        Err(e) => assert_eq!(e.op, LoadOp::FindFatCode),
        Ok(_) => panic!("expected the no-matching-slice error"),
    }
}

#[test]
fn unreadable_sources_fail_with_their_operation() {
    let garbage: &[u8] = b"neither an object nor an archive";
    let e = match build_file_info_direct(garbage) {
        Err(e) => e,
        Ok(_) => panic!("expected an error"),
    };
    assert_eq!(e.op, LoadOp::Parse);
    let e = object_debug_id(garbage).unwrap_err();
    assert_eq!(e.op, LoadOp::Parse);
    let e = pe_debug_file_name(garbage).unwrap_err();
    assert_eq!(e.op, LoadOp::Parse);
    let e = match macho_begin(garbage, 7) {
        Err(e) => e,
        Ok(_) => panic!("expected an error"),
    };
    assert_eq!(e.op, LoadOp::ParseWithGoblin);
    let mut st = ReconState {
        arch: "x86_64".to_string(),
        sym_addrs: SymMap::new(),
        interner: Interner::new(),
        func_infos: Vec::new(),
    };
    let e = recon_add_archive(&mut st, "libx.a", garbage).unwrap_err();
    assert_eq!(e.op, LoadOp::ParseAr);
    assert_eq!(e.subject.as_deref(), Some("libx.a"));
}

#[test]
fn reconstruction_rejects_a_source_of_the_wrong_architecture() {
    let sym_text = "MODULE Linux arm64 A1B2C3D4E5F60718293A4B5C6D7E8F901 example\n\
                    FILE 0 /src/a.c\n\
                    FUNC 1130 28 0 known\n\
                    1130 f 24 0\n";
    let mut st = ReconState {
        arch: "x86_64".to_string(),
        sym_addrs: SymMap::new(),
        interner: Interner::new(),
        func_infos: Vec::new(),
    };
    let e = recon_add_object(&mut st, "/obj/example.o", sym_text.as_bytes()).unwrap_err();
    assert_eq!(e.op, fix_stacks::error::LoadOp::FindArchCode);
    assert_eq!(e.subject.as_deref(), Some("/obj/example.o"));
}
