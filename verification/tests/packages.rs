use unpack::exit_codes::AuditError;
use unpack::packages::{
    process_dist_info, process_egg_info, site_packages_from_output, total_size, PackageBuilder,
    SitePackages,
};

/// Tests `PackageBuilder` functionality.
#[test]
fn package_test_package_builder() {
    let id = "test_package";
    let aliases = vec!["test_package".to_string()];
    let size = 1024;

    let package = PackageBuilder::new(id.to_string(), aliases, size).build();

    assert_eq!(package.id(), "test-package"); // underscore replaced by hyphen
    assert_eq!(package.size(), size);
    assert!(package.aliases().contains(&"test_package".to_string()));
}

/// Tests `PackageBuilder` functionality.
#[test]
fn packages_test_package_builder() {
    let id = "test_package";
    let aliases = vec!["test_package".to_string()];
    let size = 1024;

    let package = PackageBuilder::new(id.to_string(), aliases, size).build();

    assert_eq!(package.id(), "test-package"); // underscore replaced by hyphen
    assert_eq!(package.size(), size);
    assert!(package.aliases().contains(&"test_package".to_string()));
}

#[test]
fn test_process_dist_info() {
    let (id, aliases) = process_dist_info("Name: Test_Package\n", "test_package/__init__.py,,\n")
        .expect("Failed to process dist-info directory.");

    let package = PackageBuilder::new(id, aliases, 0).build();

    assert_eq!(package.id(), "test-package");
    assert_eq!(package.size(), 0);
    assert!(package.aliases().contains(&"test_package".to_string()));
}

/// No qualifying `.py` path in the listing: nothing to index.
#[test]
fn test_process_dist_info_no_aliases() {
    let result = process_dist_info("Name: No_Aliases\n", "\n");
    assert!(
        result.is_none(),
        "Should raise an error when aliases are not found."
    );
}

#[test]
fn test_process_egg_info() {
    let (id, aliases) = process_egg_info("Name: Test_Package\n", "test_package\n")
        .expect("Failed to process egg-info directory.");

    let package = PackageBuilder::new(id, aliases, 0).build();

    assert_eq!(package.id(), "test-package");
    assert_eq!(package.size(), 0);
    assert!(package.aliases().contains(&"test_package".to_string()));
}

/// An empty top-level listing yields no aliases.
#[test]
fn test_process_egg_info_no_aliases() {
    let result = process_egg_info("Name: No_Aliases\n", "");
    assert!(
        result.is_none(),
        "Should raise an error when aliases are not found."
    );
}

/// Metadata without a `Name:` header indexes nothing.
#[test]
fn packages_test_get_packages_invalid_metadata() {
    let result = process_dist_info("Invalid Content\n", "");
    assert!(
        result.is_none(),
        "Packages set should be empty with invalid METADATA content."
    );
}

/// An empty installed-paths listing indexes nothing.
#[test]
fn packages_test_get_packages_empty_record() {
    let result = process_dist_info("Name: Test_Package\n", "");
    assert!(
        result.is_none(),
        "Packages set should be empty with an empty RECORD file."
    );
}

/// Qualifying aliases: the first path component of `.py` entries of more
/// than one component, case kept, deduplicated, top-level scripts excluded.
#[test]
fn test_record_alias_rules() {
    let record = "\
pkg/__init__.py,sha256=abc,123
pkg/sub/mod.py,,
other/x.py,,
script.py,,
pkg/data.txt,,
";
    let (id, aliases) = process_dist_info("Name: Mixed\n", record).unwrap();
    assert_eq!(id, "mixed");
    assert_eq!(aliases, vec!["pkg".to_string(), "other".to_string()]);
}

/// The header value is lowercased; the builder then maps underscores.
#[test]
fn test_name_lowercased() {
    let (id, _) = process_dist_info(
        "Version: 1.0\nName: Scikit_Learn\n",
        "sklearn/__init__.py,,\n",
    )
    .unwrap();
    assert_eq!(id, "scikit_learn");
    let package = PackageBuilder::new(id, vec!["sklearn".to_string()], 0).build();
    assert_eq!(package.id(), "scikit-learn");
}

/// Lines naming site-packages are kept, trimmed of quoting; others are not.
#[test]
fn test_site_packages_from_output() {
    let output = "\
sys.path = [
    '/usr/lib/python3',
    '/venv/lib/python3.11/site-packages',
]
USER_SITE: '/home/u/.local/lib/python3.11/site-packages' (exists)
";
    let paths = site_packages_from_output(output);
    assert_eq!(
        paths,
        vec![
            "/venv/lib/python3.11/site-packages".to_string(),
            "USER_SITE: '/home/u/.local/lib/python3.11/site-packages' (exists)".to_string(),
        ]
    );
}

/// With no directories at all there is nothing to classify against.
#[test]
fn test_site_packages_new_empty_is_fatal() {
    let err = match SitePackages::new(Vec::new()) {
        Ok(_) => panic!("an empty set of directories must be rejected"),
        Err(e) => e,
    };
    assert_eq!(err, AuditError::FatalConfiguration);

    let ok = SitePackages::new(vec!["/venv/site-packages".to_string()]).unwrap();
    assert_eq!(ok.paths(), &vec!["/venv/site-packages".to_string()]);
}

/// Windows line endings are handled: the carriage return is not part of the
/// name or the alias.
#[test]
fn test_crlf_metadata() {
    let (id, aliases) = process_egg_info("Name: Pkg\r\n", "pkg\r\nextras\r\n").unwrap();
    assert_eq!(id, "pkg");
    assert_eq!(aliases, vec!["pkg".to_string(), "extras".to_string()]);
}

/// Sizes sum; the sum saturates instead of wrapping.
#[test]
fn test_total_size() {
    assert_eq!(total_size(&vec![1, 2, 3]), 6);
    assert_eq!(total_size(&Vec::new()), 0);
    assert_eq!(total_size(&vec![u64::MAX, 5]), u64::MAX);
}
