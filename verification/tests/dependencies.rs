use unpack::dependencies::{
    get_dependencies, get_pip_dependencies, get_poetry_dependencies, Dependency,
    DependencyBuilder,
};
use unpack::cli::DepType;

fn has_id_version(deps: &[Dependency], id: &str, version: &str) -> bool {
    deps.iter()
        .any(|d| d.id() == id && d.version == Some(version.to_string()))
}

/// Tests the basic functionality of DependencyBuilder and Dependency structs.
#[test]
fn dependency_dependency_builder_creates_dependency() {
    let dep = DependencyBuilder::new("my_dep".to_string())
        .version("1.0.0".to_string())
        .build();

    assert_eq!(dep.id, "my_dep");
    assert_eq!(dep.version, Some("1.0.0".to_string()));
}

/// Tests the builder with a category as well.
#[test]
fn dependencies_dependency_builder_creates_dependency() {
    let dep = DependencyBuilder::new("my_dep".to_string())
        .version("1.0.0".to_string())
        .category("dev".to_string())
        .build();

    assert_eq!(dep.id, "my_dep");
    assert_eq!(dep.version, Some("1.0.0".to_string()));
    assert_eq!(dep.category, Some("dev".to_string()));
}

/// Tests the parsing of simple dependencies from a structured manifest.
#[test]
fn dependency_parse_simple_dependencies() {
    let dependencies = get_poetry_dependencies(
        "
[tool.poetry.dependencies]
python = \"^3.8\"
package_a = \"^1.0\"
package_b = \"^2.0\"
",
    )
    .expect("Failed to get dependencies");

    assert!(has_id_version(&dependencies, "package_a", "^1.0"));
    assert!(has_id_version(&dependencies, "package_b", "^2.0"));
    // Including the Python version as a dependency for completeness.
    assert!(has_id_version(&dependencies, "python", "^3.8"));
    assert_eq!(dependencies.len(), 3);

    // Test different categories such as dev-dependencies.
    let dependencies = get_poetry_dependencies(
        "
[tool.poetry.dev-dependencies]
package_c = \"^3.0\"
package_d = \"^4.0\"
",
    )
    .expect("Failed to get dependencies");

    assert!(has_id_version(&dependencies, "package_c", "^3.0"));
    assert!(has_id_version(&dependencies, "package_d", "^4.0"));

    // Test categories that are not dependencies.
    let dependencies = get_poetry_dependencies(
        "
[tool.poetry]
name = \"my_project\"
version = \"0.1.0\"
description = \"My project\"
",
    )
    .expect("Failed to get dependencies");

    assert!(dependencies.is_empty());
}

/// Tests that each declaration carries the dotted path of its table.
#[test]
fn dependencies_parse_simple_dependencies() {
    let dependencies = get_poetry_dependencies(
        "
[tool.poetry.dependencies]
python = \"^3.8\"
package_a = \"^1.0\"
package_b = \"^2.0\"
",
    )
    .expect("Failed to get dependencies");

    assert!(dependencies.contains(&Dependency {
        id: "package_a".to_string(),
        version: Some("^1.0".to_string()),
        category: Some("tool.poetry.dependencies".to_string()),
    }));
    assert!(dependencies.contains(&Dependency {
        id: "package_b".to_string(),
        version: Some("^2.0".to_string()),
        category: Some("tool.poetry.dependencies".to_string()),
    }));
    // Including the Python version as a dependency for completeness.
    assert!(dependencies.contains(&Dependency {
        id: "python".to_string(),
        version: Some("^3.8".to_string()),
        category: Some("tool.poetry.dependencies".to_string()),
    }));
    assert_eq!(dependencies.len(), 3);

    let dependencies = get_poetry_dependencies(
        "
[tool.poetry.dev-dependencies]
package_c = \"^3.0\"
package_d = \"^4.0\"
",
    )
    .expect("Failed to get dependencies");

    assert!(dependencies.contains(&Dependency {
        id: "package_c".to_string(),
        version: Some("^3.0".to_string()),
        category: Some("tool.poetry.dev-dependencies".to_string()),
    }));
    assert!(dependencies.contains(&Dependency {
        id: "package_d".to_string(),
        version: Some("^4.0".to_string()),
        category: Some("tool.poetry.dev-dependencies".to_string()),
    }));
}

#[test]
fn test_complex_dependencies() {
    // A more complex manifest:
    // fastapi = { version = "^0.109.2", optional = true }
    let dependencies = get_poetry_dependencies(
        "
[tool.poetry.dependencies]
fastapi = { version = \"^0.109.2\", optional = true }
mkdocs-material = {extras = [\"imaging\"], version = \"^9.5.9\"}
uvicorn = \"^0.13.4\"
",
    )
    .expect("Failed to get dependencies");

    assert!(has_id_version(&dependencies, "fastapi", "^0.109.2"));
    assert!(has_id_version(&dependencies, "mkdocs-material", "^9.5.9"));
    assert!(has_id_version(&dependencies, "uvicorn", "^0.13.4"));
}

/// Tests invalid manifest content.
#[test]
fn dependency_test_invalid_toml() {
    let result = get_poetry_dependencies("invalid toml content");
    assert!(result.is_err());
}

/// Tests invalid manifest content through the dispatching entry point.
#[test]
fn dependencies_test_invalid_toml() {
    let result = get_dependencies(&DepType::Poetry, "invalid toml content");
    assert!(result.is_err());
}

/// Two independently named dependency tables at different depths are both
/// scanned, and each declaration carries its own table's dotted path.
#[test]
fn test_nested_manifest_categories() {
    let dependencies = get_poetry_dependencies(
        "
[dependencies]
top_pkg = \"1.0\"

[tool.extras.optional-dependencies]
deep_pkg = \"2.0\"
",
    )
    .expect("Failed to get dependencies");

    assert_eq!(dependencies.len(), 2);
    assert!(dependencies.contains(&Dependency {
        id: "top_pkg".to_string(),
        version: Some("1.0".to_string()),
        category: Some("dependencies".to_string()),
    }));
    assert!(dependencies.contains(&Dependency {
        id: "deep_pkg".to_string(),
        version: Some("2.0".to_string()),
        category: Some("tool.extras.optional-dependencies".to_string()),
    }));
}

/// A declaration table entry without a version string declares with no
/// version.
#[test]
fn test_table_entry_without_version() {
    let dependencies = get_poetry_dependencies(
        "
[tool.poetry.dependencies]
local_pkg = { path = \"../local\" }
",
    )
    .expect("Failed to get dependencies");

    assert_eq!(dependencies.len(), 1);
    assert_eq!(dependencies[0].id(), "local_pkg");
    assert_eq!(dependencies[0].version, None);
    assert_eq!(
        dependencies[0].category,
        Some("tool.poetry.dependencies".to_string())
    );
}

/// Pinned lines split on a single `==`; other lines declare nothing.
#[test]
fn test_pip_dependencies() {
    let deps = get_pip_dependencies("requests==2.25.1\npandas==1.2.0\n# a comment\nbad==1==2\n");
    assert_eq!(deps.len(), 2);
    assert!(has_id_version(&deps, "requests", "2.25.1"));
    assert!(has_id_version(&deps, "pandas", "1.2.0"));

    let deps = get_dependencies(&DepType::Pip, "requests==2.25.1").expect("pip never fails");
    assert_eq!(deps.len(), 1);
    assert_eq!(deps[0].id(), "requests");
}
