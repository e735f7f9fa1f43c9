use vxapo_driver::host::chain::Chain;
use vxapo_driver::host::parse::commands::cmd_expr::Variables;
use vxapo_driver::host::parse::commands::cmd_channel::handle;
use vxapo_driver::host::parse::parser::{ParseContext, ProcessingStage};

fn make_ctx(chain: Chain, file: &str) -> ParseContext {
    ParseContext {
        chain,
        is_capture: false,
        stage: ProcessingStage::Unset,
        current_file: file.to_string(),
        line_number: 1,
        abort_file: false,
        cond_stack: Vec::new(),
        variables: Variables::new(),
        include_depth: 0,
    }
}

#[test]
fn channel_select_stereo() {
    let chain = Chain::new(6, 480, vec![
        "L".into(), "R".into(), "C".into(),
        "LFE".into(), "SL".into(), "SR".into(),
    ]);
    let file = "test.txt";
    let mut ctx = make_ctx(chain, file);
    handle("L R", &mut ctx).unwrap();
    assert_eq!(ctx.chain.current_channel_names(), &["L", "R"]);
}

#[test]
fn channel_select_single() {
    let chain = Chain::new(2, 480, vec!["L".into(), "R".into()]);
    let file = "test.txt";
    let mut ctx = make_ctx(chain, file);
    handle("L", &mut ctx).unwrap();
    assert_eq!(ctx.chain.current_channel_names(), &["L"]);
}

#[test]
fn channel_select_all() {
    let chain = Chain::new(2, 480, vec!["L".into(), "R".into()]);
    let file = "test.txt";
    let mut ctx = make_ctx(chain, file);

    handle("L", &mut ctx).unwrap();
    assert_eq!(ctx.chain.current_channel_names().len(), 1);

    handle("*", &mut ctx).unwrap();
    assert_eq!(ctx.chain.current_channel_names(), &["L", "R"]);
}

#[test]
fn channel_empty_value() {
    let chain = Chain::new(2, 480, vec!["L".into(), "R".into()]);
    let file = "test.txt";
    let mut ctx = make_ctx(chain, file);
    let result = handle("", &mut ctx);
    assert!(result.is_err());
}

#[test]
fn channel_unknown_name_creates_aux() {
    let chain = Chain::new(2, 480, vec!["L".into(), "R".into()]);
    let file = "test.txt";
    let mut ctx = make_ctx(chain, file);
    handle("L R AUX1", &mut ctx).unwrap();
    assert!(ctx.chain.channel_index("AUX1").is_some());
}

#[test]
fn channel_overwrite() {
    let chain = Chain::new(6, 480, vec![
        "L".into(), "R".into(), "C".into(),
        "LFE".into(), "SL".into(), "SR".into(),
    ]);
    let file = "test.txt";
    let mut ctx = make_ctx(chain, file);
    handle("L R", &mut ctx).unwrap();
    handle("C LFE", &mut ctx).unwrap();
    assert_eq!(ctx.chain.current_channel_names(), &["C", "LFE"]);
}

#[test]
fn channel_map_resolves() {
    let chain = Chain::new(6, 480, vec![
        "L".into(), "R".into(), "C".into(),
        "LFE".into(), "RL".into(), "RR".into(),
    ]);
    let file = "test.txt";
    let mut ctx = make_ctx(chain, file);
    handle("C LFE", &mut ctx).unwrap();
    let map = ctx.chain.resolve_channel_map();
    assert_eq!(map, vec![2, 3]);
}
