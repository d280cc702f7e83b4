use unpack::analysis::AnalysisElement;
use unpack::cli::{DepType, Env, Opts, OutputKind};
use unpack::config::Config;
use unpack::exit_codes::{merge_exitcodes, ExitCode};
use unpack::mappings::{convert_py_to_rs_types, PyType};
use unpack::output::Outcome;
use unpack::packages::PackageState;

#[test]
fn test_exitcodes() {
    assert_eq!(ExitCode::Success.code(), 0);
    assert_eq!(ExitCode::HasResults(true).code(), 0);
    assert_eq!(ExitCode::HasResults(false).code(), 1);
    assert_eq!(ExitCode::GeneralError.code(), 1);
    assert_eq!(ExitCode::KilledBySigint.code(), 130);
    assert!(!ExitCode::Success.is_error());
    assert!(ExitCode::GeneralError.is_error());
}

#[test]
fn test_merge_exitcodes() {
    assert_eq!(
        merge_exitcodes(&vec![ExitCode::Success, ExitCode::Success]),
        ExitCode::Success
    );
    assert_eq!(
        merge_exitcodes(&vec![ExitCode::Success, ExitCode::GeneralError]),
        ExitCode::GeneralError
    );
    assert_eq!(merge_exitcodes(&Vec::new()), ExitCode::Success);
}

#[test]
fn test_convert_py_to_rs_types() {
    assert_eq!(convert_py_to_rs_types("int"), PyType::Int);
    assert_eq!(convert_py_to_rs_types("str"), PyType::Str);
    assert_eq!(convert_py_to_rs_types("None"), PyType::NoneType);
}

#[test]
fn test_opts_max_depth() {
    let opts = Opts {
        base_directory: ".".to_string(),
        package_status: PackageState::Unused,
        ignore_hidden: true,
        max_depth: Some(3),
        output: OutputKind::Human,
        dep_type: DepType::Poetry,
    };
    assert_eq!(opts.max_depth(), Some(3));

    let config = Config {
        base_directory: opts.base_directory.clone(),
        package_state: opts.package_status,
        dep_spec_file: "pyproject.toml".to_string(),
        dep_type: opts.dep_type,
        ignore_hidden: opts.ignore_hidden,
        max_depth: opts.max_depth(),
        env: Env::Test,
        output: opts.output,
    };
    assert_eq!(config.max_depth, Some(3));
}

#[test]
fn test_outcome_success_iff_empty() {
    let outcome = Outcome::new(Vec::new(), None);
    assert!(outcome.success);
    assert!(outcome.note.is_none());

    let element = AnalysisElement {
        package: None,
        dependency: None,
    };
    let outcome = Outcome::new(vec![element], Some("caveat".to_string()));
    assert!(!outcome.success);
    assert_eq!(outcome.elements.len(), 1);
    assert_eq!(outcome.note, Some("caveat".to_string()));
}
