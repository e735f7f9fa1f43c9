use vxapo_driver::host::chain::Chain;
use vxapo_driver::host::parse::commands::cmd_expr::Variables;
use vxapo_driver::host::parse::commands::cmd_stage::handle;
use vxapo_driver::host::parse::parser::{ParseContext, ProcessingStage};

fn make_ctx(chain: Chain) -> ParseContext {
    ParseContext {
        chain,
        is_capture: false,
        stage: ProcessingStage::Unset,
        current_file: "test.txt".to_string(),
        line_number: 0,
        abort_file: false,
        cond_stack: Vec::new(),
        variables: Variables::new(),
        include_depth: 0,
    }
}

#[test]
fn stage_premix() {
    let chain = Chain::new(2, 480, vec!["L".into(), "R".into()]);
    let mut ctx = make_ctx(chain);
    handle("PreMix", &mut ctx).unwrap();
    assert_eq!(ctx.stage, ProcessingStage::PreMix);
}

#[test]
fn stage_postmix() {
    let chain = Chain::new(2, 480, vec!["L".into(), "R".into()]);
    let mut ctx = make_ctx(chain);
    handle("PostMix", &mut ctx).unwrap();
    assert_eq!(ctx.stage, ProcessingStage::PostMix);
}

#[test]
fn stage_capture() {
    let chain = Chain::new(2, 480, vec!["L".into(), "R".into()]);
    let mut ctx = make_ctx(chain);
    handle("Capture", &mut ctx).unwrap();
    assert_eq!(ctx.stage, ProcessingStage::Capture);
}

#[test]
fn stage_case_insensitive() {
    let chain = Chain::new(2, 480, vec!["L".into(), "R".into()]);
    let mut ctx = make_ctx(chain);
    handle("premix", &mut ctx).unwrap();
    assert_eq!(ctx.stage, ProcessingStage::PreMix);
}

#[test]
fn stage_hyphenated() {
    let chain = Chain::new(2, 480, vec!["L".into(), "R".into()]);
    let mut ctx = make_ctx(chain);
    handle("pre-mix", &mut ctx).unwrap();
    assert_eq!(ctx.stage, ProcessingStage::PreMix);
}

#[test]
fn stage_invalid() {
    let chain = Chain::new(2, 480, vec!["L".into(), "R".into()]);
    let mut ctx = make_ctx(chain);
    let result = handle("Invalid", &mut ctx);
    assert!(result.is_err());
}

#[test]
fn stage_overwrite() {
    let chain = Chain::new(2, 480, vec!["L".into(), "R".into()]);
    let mut ctx = make_ctx(chain);
    handle("PreMix", &mut ctx).unwrap();
    assert_eq!(ctx.stage, ProcessingStage::PreMix);
    handle("PostMix", &mut ctx).unwrap();
    assert_eq!(ctx.stage, ProcessingStage::PostMix);
}
