use vxapo_driver::host::chain::Chain;
use vxapo_driver::host::parse::commands::cmd_expr::Variables;
use vxapo_driver::host::parse::parser::{
    parse_line, split_command_value, ConfigError, ParseContext, ProcessingStage,
};

fn test_chain() -> Chain {
    Chain::new(2, 480, vec!["L".into(), "R".into()])
}

fn test_context(chain: Chain) -> ParseContext {
    ParseContext {
        chain,
        is_capture: false,
        stage: ProcessingStage::Unset,
        current_file: "test.txt".to_string(),
        line_number: 0,
        abort_file: false,
        cond_stack: Vec::new(),
        variables: Variables::new(),
        include_depth: 0,
    }
}

#[test]
fn split_standard() {
    let (cmd, val) = split_command_value("Stage: PreMix");
    assert_eq!(cmd, "Stage");
    assert_eq!(val, "PreMix");
}

#[test]
fn split_no_value() {
    let (cmd, val) = split_command_value("Device");
    assert_eq!(cmd, "Device");
    assert_eq!(val, "");
}

#[test]
fn split_extra_colons() {
    let (cmd, val) = split_command_value("Device: C:\\Audio\\config.txt");
    assert_eq!(cmd, "Device");
    assert_eq!(val, "C:\\Audio\\config.txt");
}

#[test]
fn split_whitespace() {
    let (cmd, val) = split_command_value("  Stage :  PostMix  ");
    assert_eq!(cmd, "Stage");
    assert_eq!(val, "PostMix");
}

#[test]
fn parse_empty_line() {
    let chain = test_chain();
    let mut ctx = test_context(chain);
    assert!(parse_line("", &mut ctx).is_ok());
    assert!(parse_line("   ", &mut ctx).is_ok());
}

#[test]
fn parse_comment() {
    let chain = test_chain();
    let mut ctx = test_context(chain);
    assert!(parse_line("# this is a comment", &mut ctx).is_ok());
}

#[test]
fn parse_unknown_command() {
    let chain = test_chain();
    let mut ctx = test_context(chain);
    assert!(parse_line("Foobar: baz", &mut ctx).is_ok());
}

#[test]
fn config_error_display() {
    let err = ConfigError::SyntaxError {
        file: "test.txt".into(),
        line: 5,
        message: "bad value".into(),
    };
    assert_eq!(err.message(), "test.txt:5: bad value");
}

#[test]
fn config_error_abort() {
    let err = ConfigError::AbortFile;
    assert!(err.message().contains("aborted"));
}
