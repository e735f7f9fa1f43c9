use vxapo_driver::host::chain::Chain;
use vxapo_driver::host::parse::commands::cmd_expr::Variables;
use vxapo_driver::host::parse::commands::cmd_include::{
    check_found, handle, resolve_include_path, MAX_INCLUDE_DEPTH,
};
use vxapo_driver::host::parse::parser::{ConfigError, ParseContext, ProcessingStage};

fn make_ctx(chain: Chain, file: &str) -> ParseContext {
    ParseContext {
        chain,
        is_capture: false,
        stage: ProcessingStage::Unset,
        current_file: file.to_string(),
        line_number: 1,
        abort_file: false,
        cond_stack: Vec::new(),
        variables: Variables::new(),
        include_depth: 0,
    }
}

#[test]
fn include_empty_path() {
    let chain = Chain::new(2, 480, vec!["L".into(), "R".into()]);
    let file = "test.txt";
    let ctx = make_ctx(chain, file);
    let result = handle("", &ctx, 0);
    assert!(result.is_err());
}

#[test]
fn include_nonexistent_file() {
    let chain = Chain::new(2, 480, vec!["L".into(), "R".into()]);
    let file = "test.txt";
    let ctx = make_ctx(chain, file);
    let path = handle("nonexistent_12345.txt", &ctx, 0).unwrap();
    let result = check_found(&path, false);
    assert!(result.is_err());
}

#[test]
fn include_max_depth() {
    let chain = Chain::new(2, 480, vec!["L".into(), "R".into()]);
    let file = "test.txt";
    let ctx = make_ctx(chain, file);
    let result = handle("some.txt", &ctx, MAX_INCLUDE_DEPTH);
    assert!(result.is_err());
}

#[test]
fn resolve_relative_path() {
    let current = "/etc/audio/config.txt";
    let resolved = resolve_include_path(current, "sub/other.txt");
    assert_eq!(resolved, "/etc/audio/sub/other.txt");
}

#[test]
fn resolve_same_dir() {
    let current = "/etc/audio/config.txt";
    let resolved = resolve_include_path(current, "other.txt");
    assert_eq!(resolved, "/etc/audio/other.txt");
}

#[test]
fn resolve_no_parent() {
    let current = "config.txt";
    let resolved = resolve_include_path(current, "other.txt");
    assert_eq!(resolved, "other.txt");
}

/// A file is found next to the one that names it, whatever separator leads there.
#[test]
fn include_names_the_file_beside_the_current_one() {
    let chain = Chain::new(2, 480, vec!["L".into(), "R".into()]);
    let ctx = make_ctx(chain, "/etc/audio/config.txt");
    assert_eq!(handle("  eq.txt ", &ctx, MAX_INCLUDE_DEPTH - 1).unwrap(), "/etc/audio/eq.txt");
    assert!(check_found("/etc/audio/eq.txt", true).is_ok());
    match check_found("/etc/audio/eq.txt", false).unwrap_err() {
        ConfigError::IoError { path, message: _ } => assert_eq!(path, "/etc/audio/eq.txt"),
        other => panic!("expected a read error, got {:?}", other),
    }
}

/// A path to a network share stands for itself, and the root of a file on one is the
/// share.
#[test]
fn include_from_and_to_a_network_share() {
    let local = r"C:\dir\c.txt";
    let shared = r"\\server\share\dir\c.txt";
    assert_eq!(resolve_include_path(local, r"\\s\x"), r"\\s\x");
    assert_eq!(resolve_include_path(local, r"\\s\x\a.txt"), r"\\s\x\a.txt");
    assert_eq!(resolve_include_path(shared, r"\a.txt"), r"\\server\share\a.txt");
    assert_eq!(resolve_include_path(shared, "a.txt"), r"\\server\share\dir\a.txt");
    assert_eq!(resolve_include_path(shared, r"D:\a.txt"), r"D:\a.txt");
    assert_eq!(resolve_include_path(local, r"\a.txt"), r"C:\a.txt");
    assert_eq!(resolve_include_path(local, r"\\s"), r"C:\\s");
}
