//! End-to-end behaviour of the resolution engine on an in-memory
//! text-symbol source, the format dispatch, the cache policy, and the
//! path helpers.

use fix_stacks::breakpad::{breakpad_sym_path, strip_firefox_breakpad_junk};
use fix_stacks::error::{FileKind, LoadOp};
use fix_stacks::fixer::{
    build_file_info_direct, plan_load, remap_candidate, resolve_address, Fixer, JsonMode,
    Resolution,
};
use fix_stacks::service::{object_debug_id, peek_format};
use fix_stacks::table::{FileInfo, FuncInfo};

/// A small text-symbol source: `main` covers `[0x1130, 0x1158)` with
/// line 24 at 0x1130 and line 25 at 0x113f.
const SYM_TEXT: &str = "MODULE Linux x86_64 A1B2C3D4E5F60718293A4B5C6D7E8F901 example-linux\n\
FILE 0 /home/test/example.c\n\
FUNC 1130 28 0 main\n\
1130 f 24 0\n\
113f 19 25 0\n";

#[test]
fn resolves_address_from_text_symbols() {
    let fi = build_file_info_direct(SYM_TEXT.as_bytes()).unwrap();
    match resolve_address(&fi, 0x1137, false) {
        Resolution::Full { name, path, line } => {
            assert_eq!(name, "main");
            assert_eq!(path, "/home/test/example.c");
            assert_eq!(line, 24);
        }
        _ => panic!("expected a full resolution"),
    }
    match resolve_address(&fi, 0x1140, false) {
        Resolution::Full { name, line, .. } => {
            assert_eq!(name, "main");
            assert_eq!(line, 25);
        }
        _ => panic!("expected a full resolution"),
    }
}

#[test]
fn addresses_outside_the_function_are_unresolved() {
    let fi = build_file_info_direct(SYM_TEXT.as_bytes()).unwrap();
    // One below the function's start.
    assert!(matches!(resolve_address(&fi, 0x112f, false), Resolution::Unresolved));
    // One past the function's end (0x1130 + 0x28).
    assert!(matches!(resolve_address(&fi, 0x1158, false), Resolution::Unresolved));
    // Well past the end.
    assert!(matches!(resolve_address(&fi, 0x1170, false), Resolution::Unresolved));
}

#[test]
fn debug_id_comes_from_the_module_record() {
    let id = object_debug_id(SYM_TEXT.as_bytes()).unwrap();
    assert_eq!(id, "A1B2C3D4E5F60718293A4B5C6D7E8F901");
}

#[test]
fn format_sniffing_and_dispatch_errors() {
    assert_eq!(peek_format(SYM_TEXT.as_bytes()), FileKind::Breakpad);
    assert_eq!(peek_format(b"no object starts like this....."), FileKind::Unknown);

    // A text-symbol file handed to the binary loaders is a hard error
    // naming the format.
    let e = match plan_load(SYM_TEXT.as_bytes(), 7) {
        Err(e) => e,
        Ok(_) => panic!("expected an error"),
    };
    assert_eq!(e.op, LoadOp::ParseFormat);
    assert_eq!(e.subject.as_deref(), Some("breakpad"));

    let e = match plan_load(b"no object starts like this.....", 7) {
        Err(e) => e,
        Ok(_) => panic!("expected an error"),
    };
    assert_eq!(e.op, LoadOp::ParseFormat);
    assert_eq!(e.subject.as_deref(), Some("unknown"));
}

#[test]
fn demangles_cpp_names() {
    let f = FuncInfo {
        address: 0,
        size: 0,
        mangled_name: "_ZN3foo3barEv".to_string(),
        line_infos: Vec::new(),
    };
    assert_eq!(f.demangled_name(), "foo::bar()");
    let plain = FuncInfo {
        address: 0,
        size: 0,
        mangled_name: "main".to_string(),
        line_infos: Vec::new(),
    };
    assert_eq!(plain.demangled_name(), "main");
}

#[test]
fn caching_loads_each_reference_once() {
    let mut fixer = Fixer::new(JsonMode::No, None, None, 7);
    let mut loads = 0;
    for _ in 0..3 {
        if fixer.cached("tests/example-linux").is_none() {
            loads += 1;
            let fi = build_file_info_direct(SYM_TEXT.as_bytes()).unwrap();
            fixer.record("tests/example-linux".to_string(), fi);
        }
    }
    assert_eq!(loads, 1);
    let fi = fixer.cached("tests/example-linux").unwrap();
    assert!(matches!(resolve_address(fi, 0x1137, false), Resolution::Full { .. }));
}

#[test]
fn a_failing_reference_is_diagnosed_once() {
    let mut fixer = Fixer::new(JsonMode::No, None, None, 7);
    let mut errors = 0;
    for _ in 0..5 {
        if fixer.cached("tests/no-such-file").is_none() {
            // The load fails; the error is reported and the empty
            // sentinel cached, exactly once.
            errors += 1;
            fixer.record("tests/no-such-file".to_string(), FileInfo::empty());
        }
    }
    assert_eq!(errors, 1);
    let fi = fixer.cached("tests/no-such-file").unwrap();
    assert!(matches!(resolve_address(fi, 0, false), Resolution::Unresolved));
}

#[test]
fn breakpad_sym_paths_follow_the_layout() {
    let p = breakpad_sym_path("bin/libxul.so", "syms", "ABCDEF0123").unwrap();
    assert_eq!(p, "syms/libxul.so/ABCDEF0123/libxul.so.sym");
    let p = breakpad_sym_path("bin/xul.dll", "syms", "ABCDEF0123").unwrap();
    assert_eq!(p, "syms/xul.pdb/ABCDEF0123/xul.sym");
    let p = breakpad_sym_path("bin/xul.exe", "syms", "ABCDEF0123").unwrap();
    assert_eq!(p, "syms/xul.pdb/ABCDEF0123/xul.sym");
    let e = breakpad_sym_path("bin/", "syms", "ABCDEF0123").unwrap_err();
    assert_eq!(e.op, LoadOp::ReadBreakpadSymbolsFor);
}

#[test]
fn strips_repository_junk_from_file_names() {
    let junk =
        "hg:hg.mozilla.org/integration/autoland:caps/BasePrincipal.cpp:04c31e994f29e72dd81a7340100d12f67e48a5b4";
    assert_eq!(strip_firefox_breakpad_junk(junk), Some("caps/BasePrincipal.cpp"));
    // Wrong leading element.
    assert_eq!(
        strip_firefox_breakpad_junk(
            "git:hg.mozilla.org/x:a.cpp:04c31e994f29e72dd81a7340100d12f67e48a5b4"
        ),
        None
    );
    // Wrong host.
    assert_eq!(
        strip_firefox_breakpad_junk(
            "hg:example.org/x:a.cpp:04c31e994f29e72dd81a7340100d12f67e48a5b4"
        ),
        None
    );
    // Revision too short.
    assert_eq!(strip_firefox_breakpad_junk("hg:hg.mozilla.org/x:a.cpp:04c31e99"), None);
    // Revision not hexadecimal.
    assert_eq!(
        strip_firefox_breakpad_junk(
            "hg:hg.mozilla.org/x:a.cpp:z4c31e994f29e72dd81a7340100d12f67e48a5b4"
        ),
        None
    );
    // A path with a further separator is left alone.
    assert_eq!(
        strip_firefox_breakpad_junk(
            "hg:hg.mozilla.org/x:a:cpp:04c31e994f29e72dd81a7340100d12f67e48a5b4"
        ),
        None
    );
}

#[test]
fn stripping_applies_only_in_text_symbol_mode() {
    let sym = format!(
        "MODULE Linux x86_64 A1B2C3D4E5F60718293A4B5C6D7E8F901 x\n\
         FILE 0 hg:hg.mozilla.org/integration/autoland:caps/Base.cpp:04c31e994f29e72dd81a7340100d12f67e48a5b4\n\
         FUNC 1000 10 0 f\n\
         1000 10 7 0\n"
    );
    let fi = build_file_info_direct(sym.as_bytes()).unwrap();
    match resolve_address(&fi, 0x1000, true) {
        Resolution::Full { path, .. } => assert_eq!(path, "caps/Base.cpp"),
        _ => panic!("expected a full resolution"),
    }
    match resolve_address(&fi, 0x1000, false) {
        Resolution::Full { path, .. } => {
            assert!(path.starts_with("hg:hg.mozilla.org"));
        }
        _ => panic!("expected a full resolution"),
    }
}

#[test]
fn remap_candidates_join_the_local_directory() {
    assert_eq!(remap_candidate("bin/libxul.so", "/local").as_deref(), Some("/local/libxul.so"));
    assert_eq!(remap_candidate("libxul.so", "/local").as_deref(), Some("/local/libxul.so"));
    assert_eq!(remap_candidate("bin/", "/local"), None);
}

#[test]
fn duplicate_module_functions_keep_the_later_record() {
    // Two FUNC records at one address: the later one wins.
    let sym = "MODULE Linux x86_64 A1B2C3D4E5F60718293A4B5C6D7E8F901 x\n\
               FILE 0 a.c\n\
               FUNC 1000 10 0 first\n\
               1000 10 7 0\n\
               FUNC 1000 20 0 second\n\
               1000 20 9 0\n";
    let fi = build_file_info_direct(sym.as_bytes()).unwrap();
    assert_eq!(fi.func_infos.len(), 1);
    match resolve_address(&fi, 0x1000, false) {
        Resolution::Full { name, line, .. } => {
            assert_eq!(name, "second");
            assert_eq!(line, 9);
        }
        _ => panic!("expected a full resolution"),
    }
}
