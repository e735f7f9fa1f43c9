use vxapo_driver::host::chain::Chain;
use vxapo_driver::host::parse::commands::cmd_cond::{is_readable, Question, Relation};
use vxapo_driver::host::parse::parser::{
    decode_config, finish_config_file, parse_config_file, parse_content, strip_mark, ConfigError,
    FileParse, ParseAction, ProcessingStage,
};

fn chain() -> Chain {
    Chain::new(2, 480, vec!["L".into(), "R".into()])
}

fn read(text: &str) -> FileParse {
    parse_content(text, chain(), false, "c.txt", 0)
}

#[test]
fn a_file_is_read_to_its_end() {
    let mut p = read("# comment\n\nStage: PostMix\nChannel: R\nFoobar: 1\n");
    assert_eq!(p.run().unwrap(), ParseAction::Done);
    assert_eq!(p.context.stage, ProcessingStage::PostMix);
    assert_eq!(p.context.chain.current_channel_names(), &["R"]);
}

#[test]
fn a_value_is_computed_by_the_caller() {
    let mut p = read("Eval: x = 1 + 2\nIf: x > 2\nStage: PreMix\nEndIf:\n");
    let a = match p.run().unwrap() {
        ParseAction::Assign(a) => a,
        other => panic!("expected an assignment, got {:?}", other),
    };
    assert_eq!(a.name, "x");
    p.assign(3.0_f64.to_bits());
    let t = match p.run().unwrap() {
        ParseAction::If(t) => t,
        other => panic!("expected a test, got {:?}", other),
    };
    assert!(!t.negate);
    match t.question {
        Question::Compare { left, relation, right, .. } => {
            assert_eq!(left, 3.0_f64.to_bits());
            assert_eq!(relation, Relation::Greater);
            assert_eq!(right, "2");
        }
        other => panic!("expected a comparison, got {:?}", other),
    }
    p.answer(true);
    assert_eq!(p.run().unwrap(), ParseAction::Done);
    assert_eq!(p.context.stage, ProcessingStage::PreMix);
}

#[test]
fn lines_of_another_branch_do_nothing() {
    let mut p = read(
        "If: stage == capture\nStage: PreMix\nIf: y\nEndIf:\nElse:\nStage: PostMix\nEndIf:\n",
    );
    assert_eq!(p.run().unwrap(), ParseAction::Done);
    assert_eq!(p.context.stage, ProcessingStage::PostMix);
    assert!(p.context.cond_stack.is_empty());
}

#[test]
fn another_file_is_read_by_the_caller() {
    let mut p = read("Include: sub.txt\nChannel: L\n");
    assert_eq!(p.run().unwrap(), ParseAction::Include("sub.txt".to_string()));
    let mut inner = chain();
    inner.set_current_channel_names(vec!["R".to_string()]);
    p.returned(inner);
    assert_eq!(p.context.chain.current_channel_names(), &["R"]);
    assert_eq!(p.run().unwrap(), ParseAction::Done);
    assert_eq!(p.context.chain.current_channel_names(), &["L"]);
}

#[test]
fn a_line_that_makes_no_sense_is_reported_with_its_place() {
    let mut p = read("Stage: PreMix\nEndIf:\n");
    assert_eq!(p.run().unwrap_err().message(), "c.txt:2: EndIf without matching If");
}

#[test]
fn the_rest_of_an_aborted_file_is_not_read() {
    let mut p = read("Stage: PreMix\nDevice: AbortFile\nStage: PostMix\n");
    assert_eq!(p.run().unwrap(), ParseAction::Done);
    assert_eq!(p.context.stage, ProcessingStage::PreMix);
    assert!(p.context.abort_file);
}

#[test]
fn channels_are_given_back_after_a_file() {
    let mut start = chain();
    start.set_current_channel_names(vec!["R".to_string()]);
    let (mut p, snapshot) = parse_config_file(b"Channel: L\n", "", start, false, "c.txt");
    assert_eq!(p.run().unwrap(), ParseAction::Done);
    assert_eq!(p.context.chain.current_channel_names(), &["L"]);
    finish_config_file(&mut p.context.chain, snapshot);
    assert_eq!(p.context.chain.current_channel_names(), &["R"]);
}

#[test]
fn a_file_is_read_as_utf_8_or_by_the_code_page() {
    assert_eq!(decode_config(b"\xEF\xBB\xBFStage", "unused"), "Stage");
    assert_eq!(decode_config("gr\u{fc}n".as_bytes(), "unused"), "gr\u{fc}n");
    assert_eq!(decode_config(b"gr\xFCn", "gr\u{fc}n"), "gr\u{fc}n");
    assert_eq!(strip_mark(b"\xEF\xBB\xBFgr\xFCn"), b"gr\xFCn");
    assert_eq!(strip_mark(b"\xEF\xBB"), b"\xEF\xBB");
    let (p, _) = parse_config_file(b"Stage: \xFC\n", "Stage: PostMix\n", chain(), false, "c.txt");
    assert_eq!(p.lines, vec!["Stage: PostMix".to_string()]);
}

#[test]
fn a_condition_that_cannot_be_read_is_said_so() {
    assert!(is_readable("x > 1"));
    assert!(!is_readable(""));
    assert_eq!(read("If:\nEndIf:\n").run().unwrap(), ParseAction::Unreadable);
    assert_eq!(
        read("If: x > 1\nEndIf:\n").run().unwrap_err().message(),
        "c.txt:1: undefined variable 'x'"
    );
}

#[test]
fn messages_name_what_failed() {
    let e = ConfigError::IoError { path: "a.txt".to_string(), message: "gone".to_string() };
    assert_eq!(e.message(), "IO error reading 'a.txt': gone");
    assert!(!ConfigError::ConditionFalse.message().is_empty());
}

#[test]
fn a_block_that_stays_open_is_reported() {
    let mut p = read("If: stage == capture\nStage: PreMix\n");
    assert_eq!(
        p.run().unwrap_err().message(),
        "c.txt:2: unterminated If: block (1 levels open)"
    );
}
