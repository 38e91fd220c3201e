//! Address-table construction and lookup behaviour on concrete values.

use fix_stacks::raw::{RawFunc, RawLine};
use fix_stacks::strtools::format_address;
use fix_stacks::table::{FileInfo, FuncInfo};

fn func(address: u64, size: u64, name: &str, lines: Vec<(u64, u64, &str)>) -> RawFunc {
    RawFunc {
        address,
        size,
        name: name.to_string(),
        lines: lines
            .into_iter()
            .map(|(address, line, path)| RawLine { address, line, path: path.to_string() })
            .collect(),
    }
}

fn table(funcs: Vec<RawFunc>) -> FileInfo {
    FileInfo::new(funcs)
}

fn func_at(fi: &FileInfo, address: u64) -> Option<&FuncInfo> {
    fi.func_info(address)
}

#[test]
fn format_address_plain() {
    assert_eq!(format_address(0x1130, 0), "0x1130");
    assert_eq!(format_address(0, 0), "0x0");
    assert_eq!(format_address(0xdeadbeef, 0), "0xdeadbeef");
}

#[test]
fn format_address_with_offset() {
    assert_eq!(format_address(0x1130, 0x10), "0x1130 -> 0x1140");
    assert_eq!(format_address(0x1130, -0x30), "0x1130 -> 0x1100");
}

#[test]
fn function_at_within_and_between_ranges() {
    let fi = table(vec![
        func(0x1000, 0x100, "alpha", vec![]),
        func(0x2000, 0x80, "beta", vec![]),
    ]);
    // Everywhere inside a function's range, that function answers.
    for a in [0x1000u64, 0x1001, 0x10ff] {
        assert_eq!(func_at(&fi, a).unwrap().mangled_name, "alpha");
    }
    for a in [0x2000u64, 0x203f, 0x207f] {
        assert_eq!(func_at(&fi, a).unwrap().mangled_name, "beta");
    }
    // Strictly between alpha's end and beta's start: unresolved.
    for a in [0x1100u64, 0x1800, 0x1fff] {
        assert!(func_at(&fi, a).is_none());
    }
    // Below the first function: unresolved.
    assert!(func_at(&fi, 0xfff).is_none());
}

#[test]
fn function_at_exact_boundaries() {
    let fi = table(vec![
        func(0x1000, 0x100, "alpha", vec![]),
        func(0x1100, 0x10, "beta", vec![]),
    ]);
    assert_eq!(func_at(&fi, 0x1000).unwrap().mangled_name, "alpha");
    assert_eq!(func_at(&fi, 0x10ff).unwrap().mangled_name, "alpha");
    // One past alpha's end falls to beta, which starts right there.
    assert_eq!(func_at(&fi, 0x1100).unwrap().mangled_name, "beta");
    // One past beta's end falls to nothing.
    assert!(func_at(&fi, 0x1110).is_none());
}

#[test]
fn line_at_is_monotonic_floor() {
    let fi = table(vec![func(
        0x1000,
        0x100,
        "alpha",
        vec![
            (0x1000, 24, "example.c"),
            (0x1010, 25, "example.c"),
            (0x1040, 26, "example.c"),
        ],
    )]);
    let f = func_at(&fi, 0x1000).unwrap();
    for a in 0x1000u64..0x1010 {
        assert_eq!(f.line_info(a).unwrap().line, 24);
    }
    for a in 0x1010u64..0x1040 {
        assert_eq!(f.line_info(a).unwrap().line, 25);
    }
    // The last entry continues to the end of the function and beyond.
    assert_eq!(f.line_info(0x10ff).unwrap().line, 26);
    // Below the first recorded line there is nothing.
    assert!(f.line_info(0xfff).is_none());
}

#[test]
fn duplicate_function_addresses_keep_the_later_entry() {
    let fi = table(vec![
        func(0x1000, 0x10, "first", vec![]),
        func(0x1000, 0x20, "second", vec![]),
    ]);
    assert_eq!(fi.func_infos.len(), 1);
    let f = func_at(&fi, 0x1005).unwrap();
    assert_eq!(f.mangled_name, "second");
    assert_eq!(f.size, 0x20);
}

#[test]
fn line_paths_resolve_through_the_interner() {
    let fi = table(vec![func(
        0x1000,
        0x100,
        "alpha",
        vec![(0x1000, 7, "dir/a.c"), (0x1020, 9, "dir/b.c"), (0x1030, 11, "dir/a.c")],
    )]);
    let f = func_at(&fi, 0x1000).unwrap();
    assert_eq!(fi.interner.get(f.line_info(0x1000).unwrap().path), "dir/a.c");
    assert_eq!(fi.interner.get(f.line_info(0x1020).unwrap().path), "dir/b.c");
    assert_eq!(fi.interner.get(f.line_info(0x1030).unwrap().path), "dir/a.c");
}
