use unpack::imports::{collect_imports, merge_imports, stem_import, ImportStmt};

#[test]
fn stem_import_correctly_stems() {
    let first_part = stem_import("os.path");
    assert_eq!(first_part.as_str(), "os");

    let first_part = stem_import("os");
    assert_eq!(first_part.as_str(), "os");

    let first_part = stem_import("");
    assert_eq!(first_part.as_str(), "");
}

/// Tests the `stem_import` function for correct behavior.
#[test]
fn test_stem_import() {
    assert_eq!(stem_import("os.path"), "os");
    assert_eq!(stem_import("sys"), "sys");
    // Edge cases
    assert_eq!(stem_import(""), "");
    assert_eq!(stem_import("complex.import.path"), "complex");
}

fn strings(items: &[&str]) -> Vec<String> {
    items.iter().map(|s| s.to_string()).collect()
}

/// `import a.b.c` contributes `a`; `from a.b import x` contributes `a`;
/// `from . import x` contributes nothing; names are kept once.
#[test]
fn test_collect_imports() {
    let stmts = vec![
        ImportStmt::Import(strings(&["os.path", "sys"])),
        ImportStmt::ImportFrom(Some("collections.abc".to_string())),
        ImportStmt::ImportFrom(None),
        ImportStmt::Import(strings(&["os"])),
    ];
    let imports = collect_imports(&stmts);
    assert_eq!(imports, strings(&["os", "sys", "collections"]));
}

/// Merging keeps each name once, whatever file it came from.
#[test]
fn test_merge_imports() {
    let a = strings(&["os", "sys"]);
    let b = strings(&["sys", "pandas"]);
    let merged = merge_imports(&a, &b);
    assert_eq!(merged, strings(&["os", "sys", "pandas"]));

    let merged_other_way = merge_imports(&b, &a);
    assert_eq!(merged_other_way, strings(&["sys", "pandas", "os"]));
    // the same set either way
    for x in &merged {
        assert!(merged_other_way.contains(x));
    }
    for x in &merged_other_way {
        assert!(merged.contains(x));
    }
}
