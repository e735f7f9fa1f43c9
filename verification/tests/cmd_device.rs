use vxapo_driver::host::chain::Chain;
use vxapo_driver::host::parse::commands::cmd_expr::Variables;
use vxapo_driver::host::parse::commands::cmd_device::handle;
use vxapo_driver::host::parse::parser::{ConfigError, ParseContext, ProcessingStage};

fn make_ctx(chain: Chain) -> ParseContext {
    ParseContext {
        chain,
        is_capture: false,
        stage: ProcessingStage::Unset,
        current_file: "test.txt".to_string(),
        line_number: 0,
        abort_file: false,
        cond_stack: Vec::new(),
        variables: Variables::new(),
        include_depth: 0,
    }
}

#[test]
fn device_path() {
    let chain = Chain::new(2, 480, vec!["L".into(), "R".into()]);
    let mut ctx = make_ctx(chain);
    handle("C:\\Audio\\Speakers", &mut ctx).unwrap();
    assert!(!ctx.abort_file);
}

#[test]
fn device_abort_file() {
    let chain = Chain::new(2, 480, vec!["L".into(), "R".into()]);
    let mut ctx = make_ctx(chain);
    let result = handle("AbortFile", &mut ctx);
    assert!(result.is_err());
    assert!(ctx.abort_file);
    match result.unwrap_err() {
        ConfigError::AbortFile => {}
        other => panic!("expected AbortFile, got {:?}", other),
    }
}

#[test]
fn device_abort_file_case_insensitive() {
    let chain = Chain::new(2, 480, vec!["L".into(), "R".into()]);
    let mut ctx = make_ctx(chain);
    let result = handle("abortfile", &mut ctx);
    assert!(result.is_err());
    assert!(ctx.abort_file);
}

#[test]
fn device_empty_value() {
    let chain = Chain::new(2, 480, vec!["L".into(), "R".into()]);
    let mut ctx = make_ctx(chain);
    let result = handle("", &mut ctx);
    assert!(result.is_err());
}

#[test]
fn device_path_with_special_chars() {
    let chain = Chain::new(2, 480, vec!["L".into(), "R".into()]);
    let mut ctx = make_ctx(chain);
    handle("\\Device\\{AABBCCDD-1234-5678}", &mut ctx).unwrap();
}
