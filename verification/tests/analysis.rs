use unpack::analysis::{AnalysisElement, ProjectAnalysis};
use unpack::cli::{DepType, Env, OutputKind};
use unpack::config::Config;
use unpack::dependencies::{get_dependencies, Dependency, DependencyBuilder};
use unpack::packages::{Package, PackageBuilder, PackageState};

/// Helper function to create a Package instance.
fn create_package(id: &str, aliases: &[&str], requirements: Vec<String>) -> Package {
    let aliases: Vec<String> = aliases.iter().map(|s| s.to_string()).collect();
    PackageBuilder::new(id.to_string(), aliases, 0)
        .requirements(requirements)
        .build()
}

/// Helper function to create a Dependency instance.
fn create_dependency(id: &str) -> Dependency {
    DependencyBuilder::new(id.to_string())
        .version("1.0.0".to_string())
        .build()
}

fn strings(items: &[&str]) -> Vec<String> {
    items.iter().map(|s| s.to_string()).collect()
}

fn pkg_id(el: &AnalysisElement) -> String {
    el.package.as_ref().unwrap().id().to_string()
}

#[test]
fn test_get_used() {
    let pkg1 = create_package("pkg1", &["alias1"], strings(&["requirement1"]));
    let dep1 = create_dependency("pkg1");
    let imports = strings(&["alias1"]);

    let analysis = ProjectAnalysis::new(vec![pkg1], vec![dep1], imports);

    let used = analysis.get_used();
    assert_eq!(used.len(), 1);
    assert_eq!(pkg_id(&used[0]), "pkg1");
    assert_eq!(
        used[0].dependency.as_ref().map(|d| d.id().to_string()),
        Some("pkg1".to_string())
    );
}

#[test]
fn test_get_used_no_dependencies() {
    let pkg1 = create_package("pkg1", &["alias1"], strings(&["requirement1"]));
    let imports = strings(&["alias1"]);

    let analysis = ProjectAnalysis::new(vec![pkg1], Vec::new(), imports);

    let used = analysis.get_used();
    assert!(
        used.is_empty(),
        "No packages should be considered used as there are no dependencies."
    );
}

#[test]
fn test_get_unused_no_packages() {
    let dep1 = create_dependency("pkg1");
    let imports = Vec::new();

    let analysis = ProjectAnalysis::new(Vec::new(), vec![dep1], imports);

    let unused = analysis.get_unused();
    assert!(
        unused.is_empty(),
        "No packages should be considered unused as there are no packages."
    );
}

#[test]
fn test_multiple_dependencies_and_packages() {
    let pkg1 = create_package("pkg1", &["alias1"], strings(&["requirement1"]));
    let pkg2 = create_package("pkg2", &["alias2", "alias3"], strings(&["requirement1"]));
    let dep1 = create_dependency("pkg1");
    let dep2 = create_dependency("pkg2");
    let imports = strings(&["alias1", "alias3"]);

    let analysis = ProjectAnalysis::new(vec![pkg1, pkg2], vec![dep1, dep2], imports);

    let used = analysis.get_used();
    assert_eq!(used.len(), 2, "Should identify both packages as used");
    let pkg_ids: Vec<String> = used.iter().map(pkg_id).collect();
    assert!(pkg_ids.contains(&"pkg1".to_string()));
    assert!(pkg_ids.contains(&"pkg2".to_string()));
}

#[test]
fn test_get_unused() {
    let pkg1 = create_package("pkg1", &["alias1"], strings(&["requirement1"]));
    let dep1 = create_dependency("pkg1");
    let imports = Vec::new(); // No imports, so pkg1 should be unused.

    let analysis = ProjectAnalysis::new(vec![pkg1], vec![dep1], imports);

    let unused = analysis.get_unused();
    assert_eq!(unused.len(), 1);
    assert_eq!(pkg_id(&unused[0]), "pkg1");
    assert_eq!(
        unused[0].dependency.as_ref().map(|d| d.id().to_string()),
        Some("pkg1".to_string())
    );
}

#[test]
fn test_get_unused_with_overlapping_package_dependencies() {
    // Here, pkg1 has a dependency on pkg2, but pkg2 is not imported.
    let pkg1 = create_package("pkg1", &["alias1"], strings(&["pkg2"]));
    let pkg2 = create_package("pkg2", &["alias2"], strings(&["requirement2"]));
    let dep1 = create_dependency("pkg1");
    let dep2 = create_dependency("pkg2");
    let imports = strings(&["alias1"]);
    let analysis = ProjectAnalysis::new(
        vec![pkg1, pkg2.clone()],
        vec![dep1.clone(), dep2.clone()],
        imports.clone(),
    );

    let unused = analysis.get_unused();

    // There should be 0 unused packages as pkg2 is a dependency of pkg1. So
    // even though it is not imported, it is still used indirectly.
    assert!(
        unused.is_empty(),
        "No packages should be considered unused as pkg2 is a dependency of pkg1."
    );

    // Now, if we remove the dependency on pkg2 from pkg1, pkg2 should be
    // considered unused.
    let pkg1 = create_package("pkg1", &["alias1"], Vec::new());
    let analysis = ProjectAnalysis::new(vec![pkg1, pkg2], vec![dep1, dep2], imports);

    let unused = analysis.get_unused();
    assert_eq!(unused.len(), 1);
    assert_eq!(pkg_id(&unused[0]), "pkg2");
}

#[test]
fn test_get_untracked() {
    let pkg1 = create_package("pkg1", &["alias1"], strings(&["requirement1"]));
    let imports = strings(&["alias1"]);

    // No dependencies, so pkg1 should be untracked.
    let analysis = ProjectAnalysis::new(vec![pkg1], Vec::new(), imports);

    let untracked = analysis.get_untracked();
    assert_eq!(untracked.len(), 1);
    assert_eq!(pkg_id(&untracked[0]), "pkg1");
    assert!(untracked[0].dependency.is_none());
}

#[test]
fn test_get_untracked_no_aliases_imported() {
    let pkg1 = create_package("pkg1", &["alias1"], strings(&["requirement1"]));
    let imports = strings(&["unrelated_alias"]);

    let analysis = ProjectAnalysis::new(vec![pkg1], Vec::new(), imports);

    let untracked = analysis.get_untracked();
    assert!(
        untracked.is_empty(),
        "No packages should be untracked as their aliases are not imported."
    );
}

#[test]
fn test_packages_with_no_corresponding_dependency() {
    let pkg1 = create_package("pkg1", &["alias1"], strings(&["requirement1"]));
    // This package does not have a corresponding dependency.
    let pkg2 = create_package("pkg2", &["alias2"], strings(&["requirement1"]));
    let dep1 = create_dependency("pkg1");
    let imports = strings(&["alias2"]);

    let analysis = ProjectAnalysis::new(vec![pkg1, pkg2], vec![dep1], imports);

    let untracked = analysis.get_untracked();
    assert_eq!(
        untracked.len(),
        1,
        "Only pkg2 should be identified as untracked"
    );
    assert_eq!(pkg_id(&untracked[0]), "pkg2");
}

#[test]
fn test_case_sensitivity() {
    let pkg1 = create_package("PKG1", &["Alias1"], strings(&["requirement1"]));
    let dep1 = create_dependency("pkg1"); // Different case from the package ID.
    let imports = strings(&["alias1"]); // Different case from the alias.

    let analysis = ProjectAnalysis::new(vec![pkg1], vec![dep1], imports);

    let used = analysis.get_used();
    assert!(used.is_empty(), "Case differences should prevent matching");
}

#[test]
fn test_overlapping_dependencies_and_imports() {
    let pkg1 = create_package("pkg1", &["alias1", "alias2"], strings(&["requirement1"]));
    let pkg2 = create_package("pkg2", &["alias2"], strings(&["requirement1"]));
    let dep1 = create_dependency("pkg1");
    let dep2 = create_dependency("pkg2");
    let imports = strings(&["alias2"]);

    let analysis = ProjectAnalysis::new(vec![pkg1, pkg2], vec![dep1, dep2], imports);

    let used = analysis.get_used();
    assert_eq!(
        used.len(),
        2,
        "Both pkg1 and pkg2 should be considered used as alias2 is imported by both."
    );
}

/// A package and a declaration that differ only in case and separator still
/// match: identifiers are normalized at construction.
#[test]
fn test_normalization_matches_separators_and_case() {
    let pkg = create_package("Scikit-Learn", &["sklearn"], Vec::new());
    let dep = create_dependency("scikit_learn");
    let imports = strings(&["sklearn"]);

    let analysis = ProjectAnalysis::new(vec![pkg], vec![dep], imports);

    let used = analysis.get_used();
    assert_eq!(used.len(), 1);
    assert_eq!(pkg_id(&used[0]), "scikit-learn");
}

/// A declared, imported dependency with no matching installed package is
/// uninstalled.
#[test]
fn test_get_uninstalled() {
    let dep = create_dependency("requests");
    let imports = strings(&["requests"]);

    let analysis = ProjectAnalysis::new(Vec::new(), vec![dep], imports);

    let uninstalled = analysis.get_uninstalled();
    assert_eq!(uninstalled.len(), 1);
    assert!(uninstalled[0].package.is_none());
    assert_eq!(
        uninstalled[0].dependency.as_ref().map(|d| d.id().to_string()),
        Some("requests".to_string())
    );
}

/// A declared dependency that is neither imported nor installed is not
/// reported uninstalled.
#[test]
fn test_get_uninstalled_requires_import() {
    let dep = create_dependency("requests");
    let imports = strings(&["pandas"]);

    let analysis = ProjectAnalysis::new(Vec::new(), vec![dep], imports);

    assert!(analysis.get_uninstalled().is_empty());
}

/// Pseudo-dependencies provided by the interpreter are never unused or
/// uninstalled.
#[test]
fn test_pseudo_dependencies_excluded() {
    let python_pkg = create_package("python", &["python_stdlib"], Vec::new());
    let dep = create_dependency("python");
    let analysis = ProjectAnalysis::new(vec![python_pkg], vec![dep], Vec::new());
    assert!(analysis.get_unused().is_empty());

    let dep = create_dependency("pip");
    let imports = strings(&["pip"]);
    let analysis = ProjectAnalysis::new(Vec::new(), vec![dep], imports);
    assert!(analysis.get_uninstalled().is_empty());
}

/// Used and Unused are mutually exclusive for the same inputs.
#[test]
fn test_used_unused_mutually_exclusive() {
    let pkg1 = create_package("pkg1", &["alias1"], Vec::new());
    let pkg2 = create_package("pkg2", &["alias2"], Vec::new());
    let dep1 = create_dependency("pkg1");
    let dep2 = create_dependency("pkg2");
    let imports = strings(&["alias1"]);

    let analysis = ProjectAnalysis::new(vec![pkg1, pkg2], vec![dep1, dep2], imports);

    let used: Vec<String> = analysis
        .get_used()
        .iter()
        .map(|e| e.dependency.as_ref().unwrap().id().to_string())
        .collect();
    let unused: Vec<String> = analysis
        .get_unused()
        .iter()
        .map(|e| e.dependency.as_ref().unwrap().id().to_string())
        .collect();
    assert_eq!(used, vec!["pkg1".to_string()]);
    assert_eq!(unused, vec!["pkg2".to_string()]);
    for id in &used {
        assert!(!unused.contains(id));
    }
}

/// Re-running the classifier on identical inputs yields identical results,
/// and the order of the import set does not change them.
#[test]
fn test_classifier_idempotent_and_import_order_independent() {
    let build = |imports: Vec<String>| {
        ProjectAnalysis::new(
            vec![
                create_package("pkg1", &["alias1"], Vec::new()),
                create_package("pkg2", &["alias2"], Vec::new()),
            ],
            vec![create_dependency("pkg1"), create_dependency("pkg2")],
            imports,
        )
    };
    let a1 = build(strings(&["alias1", "alias9"]));
    let a2 = build(strings(&["alias9", "alias1"]));

    assert_eq!(a1.get_used(), a1.get_used());
    assert_eq!(a1.get_unused(), a1.get_unused());
    assert_eq!(a1.get_used(), a2.get_used());
    assert_eq!(a1.get_unused(), a2.get_unused());
    assert_eq!(a1.get_untracked(), a2.get_untracked());
    assert_eq!(a1.get_uninstalled(), a2.get_uninstalled());
}

/// The scan dispatches on the configured target state.
#[test]
fn test_scan_dispatch() {
    let analysis = ProjectAnalysis::new(
        vec![create_package("pkg1", &["alias1"], Vec::new())],
        vec![create_dependency("pkg1")],
        strings(&["alias1"]),
    );
    let config = |state: PackageState| Config {
        base_directory: ".".to_string(),
        package_state: state,
        dep_spec_file: "pyproject.toml".to_string(),
        dep_type: DepType::Poetry,
        ignore_hidden: true,
        max_depth: None,
        env: Env::Test,
        output: OutputKind::Human,
    };

    assert_eq!(analysis.scan(&config(PackageState::Used)).len(), 1);
    assert!(analysis.scan(&config(PackageState::Unused)).is_empty());
    assert!(analysis.scan(&config(PackageState::Untracked)).is_empty());
    assert!(analysis.scan(&config(PackageState::Uninstalled)).is_empty());
}

/// End to end: of two declared, installed dependencies only one is
/// imported; the other is unused and nothing is untracked.
#[test]
fn test_end_to_end_classification() {
    let manifest = "
[tool.poetry.dependencies]
requests = \"2.25.1\"
pandas = \"^1.2.0\"
";
    let deps = get_dependencies(&DepType::Poetry, manifest).expect("manifest should parse");
    assert_eq!(deps.len(), 2);

    let packages = vec![
        create_package("requests", &["requests"], Vec::new()),
        create_package("pandas", &["pandas"], Vec::new()),
    ];
    let imports = strings(&["pandas"]);

    let analysis = ProjectAnalysis::new(packages, deps, imports);

    let used: Vec<String> = analysis.get_used().iter().map(pkg_id).collect();
    let unused: Vec<String> = analysis.get_unused().iter().map(pkg_id).collect();
    assert_eq!(used, vec!["pandas".to_string()]);
    assert_eq!(unused, vec!["requests".to_string()]);
    assert!(analysis.get_untracked().is_empty());
}
