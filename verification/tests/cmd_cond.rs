use vxapo_driver::host::parse::commands::cmd_cond;
use vxapo_driver::host::parse::commands::cmd_cond::{
    finish_elseif, finish_if, handle_else, handle_endif, is_skipping, CondStack, NumericTest,
    Question, Relation,
};
use vxapo_driver::host::parse::commands::cmd_expr::Variables;
use vxapo_driver::host::parse::parser::{ConfigError, ProcessingStage};

fn holds(test: &NumericTest, file: &str, line: usize) -> Result<bool, ConfigError> {
    let plain = match &test.question {
        Question::NonZero { value } => f64::from_bits(*value) != 0.0,
        Question::Compare { left, relation, right, variable } => {
            let l = f64::from_bits(*left);
            let r = match right.parse::<f64>() {
                Ok(n) => n,
                Err(_) => match variable {
                    Some(bits) => f64::from_bits(*bits),
                    None => return Err(cmd_cond::undefined_variable(right, file, line)),
                },
            };
            match relation {
                Relation::NotEqual => (l - r).abs() >= 1e-10,
                Relation::AtLeast => l >= r,
                Relation::AtMost => l <= r,
                Relation::Equal => (l - r).abs() < 1e-10,
                Relation::Greater => l > r,
                Relation::Less => l < r,
            }
        }
    };
    Ok(plain != test.negate)
}

fn handle_if(
    value: &str,
    v: &Variables,
    stage: ProcessingStage,
    is_capture: bool,
    stack: &mut CondStack,
    file: &str,
    line: usize,
) -> Result<(), ConfigError> {
    if let Some(test) = cmd_cond::handle_if(value, v, stage, is_capture, stack, file, line)? {
        let result = holds(&test, file, line)?;
        finish_if(stack, result);
    }
    Ok(())
}

fn handle_elseif(
    value: &str,
    v: &Variables,
    stage: ProcessingStage,
    is_capture: bool,
    stack: &mut CondStack,
    file: &str,
    line: usize,
) -> Result<(), ConfigError> {
    if let Some(test) = cmd_cond::handle_elseif(value, v, stage, is_capture, stack, file, line)? {
        let result = holds(&test, file, line)?;
        finish_elseif(stack, result);
    }
    Ok(())
}

fn vars_with(key: &str, val: f64) -> Variables {
    let mut m = Variables::new();
    m.set(key, val.to_bits());
    m
}

#[test]
fn if_true() {
    let v = vars_with("x", 1.0);
    let mut stack = CondStack::new();
    handle_if("x", &v, ProcessingStage::Unset, false, &mut stack, "t", 1).unwrap();
    assert!(stack.last().unwrap().executing);
    assert!(!is_skipping(&stack));
    handle_endif(&mut stack, "t", 2).unwrap();
    assert!(stack.is_empty());
}

#[test]
fn if_false() {
    let v = vars_with("x", 0.0);
    let mut stack = CondStack::new();
    handle_if("x", &v, ProcessingStage::Unset, false, &mut stack, "t", 1).unwrap();
    assert!(!stack.last().unwrap().executing);
    assert!(is_skipping(&stack));
    handle_endif(&mut stack, "t", 2).unwrap();
}

#[test]
fn if_comparison_true() {
    let v = vars_with("x", 5.0);
    let mut stack = CondStack::new();
    handle_if("x > 3", &v, ProcessingStage::Unset, false, &mut stack, "t", 1).unwrap();
    assert!(stack.last().unwrap().executing);
    handle_endif(&mut stack, "t", 2).unwrap();
}

#[test]
fn if_comparison_false() {
    let v = vars_with("x", 2.0);
    let mut stack = CondStack::new();
    handle_if("x > 3", &v, ProcessingStage::Unset, false, &mut stack, "t", 1).unwrap();
    assert!(!stack.last().unwrap().executing);
    handle_endif(&mut stack, "t", 2).unwrap();
}

#[test]
fn if_not() {
    let v = vars_with("x", 0.0);
    let mut stack = CondStack::new();
    handle_if("!x", &v, ProcessingStage::Unset, false, &mut stack, "t", 1).unwrap();
    assert!(stack.last().unwrap().executing);
    handle_endif(&mut stack, "t", 2).unwrap();
}

#[test]
fn elseif_first_true() {
    let v = vars_with("x", 1.0);
    let mut stack = CondStack::new();
    handle_if("x", &v, ProcessingStage::Unset, false, &mut stack, "t", 1).unwrap();
    assert!(stack.last().unwrap().executing);

    handle_elseif("x == 1", &v, ProcessingStage::Unset, false, &mut stack, "t", 2).unwrap();
    assert!(!stack.last().unwrap().executing);
    handle_endif(&mut stack, "t", 3).unwrap();
}

#[test]
fn elseif_first_false_second_true() {
    let v = vars_with("x", 2.0);
    let mut stack = CondStack::new();
    handle_if("x > 5", &v, ProcessingStage::Unset, false, &mut stack, "t", 1).unwrap();
    assert!(!stack.last().unwrap().executing);

    handle_elseif("x > 1", &v, ProcessingStage::Unset, false, &mut stack, "t", 2).unwrap();
    assert!(stack.last().unwrap().executing);
    handle_endif(&mut stack, "t", 3).unwrap();
}

#[test]
fn else_after_false() {
    let v = vars_with("x", 0.0);
    let mut stack = CondStack::new();
    handle_if("x", &v, ProcessingStage::Unset, false, &mut stack, "t", 1).unwrap();
    handle_else(&mut stack, "t", 2).unwrap();
    assert!(stack.last().unwrap().executing);
    handle_endif(&mut stack, "t", 3).unwrap();
}

#[test]
fn else_after_true() {
    let v = vars_with("x", 1.0);
    let mut stack = CondStack::new();
    handle_if("x", &v, ProcessingStage::Unset, false, &mut stack, "t", 1).unwrap();
    handle_else(&mut stack, "t", 2).unwrap();
    assert!(!stack.last().unwrap().executing);
    handle_endif(&mut stack, "t", 3).unwrap();
}

#[test]
fn nested_if() {
    let mut v = Variables::new();
    v.set("x", 1.0_f64.to_bits());
    v.set("y", 2.0_f64.to_bits());
    let mut stack = CondStack::new();

    handle_if("x", &v, ProcessingStage::Unset, false, &mut stack, "t", 1).unwrap();
    assert!(!is_skipping(&stack));

    handle_if("y > 1", &v, ProcessingStage::Unset, false, &mut stack, "t", 2).unwrap();
    assert!(!is_skipping(&stack));

    handle_endif(&mut stack, "t", 3).unwrap();
    assert!(!is_skipping(&stack));

    handle_endif(&mut stack, "t", 4).unwrap();
    assert!(stack.is_empty());
}

#[test]
fn nested_outer_false_skips_inner() {
    let mut v = Variables::new();
    v.set("x", 0.0_f64.to_bits());
    v.set("y", 100.0_f64.to_bits());
    let mut stack = CondStack::new();

    handle_if("x", &v, ProcessingStage::Unset, false, &mut stack, "t", 1).unwrap();
    assert!(is_skipping(&stack));

    handle_if("y > 1", &v, ProcessingStage::Unset, false, &mut stack, "t", 2).unwrap();
    assert!(is_skipping(&stack));
    assert!(!stack.last().unwrap().executing);

    handle_endif(&mut stack, "t", 3).unwrap();
    handle_endif(&mut stack, "t", 4).unwrap();
}

#[test]
fn if_stage_premix() {
    let v = Variables::new();
    let mut stack = CondStack::new();
    handle_if("stage == premix", &v, ProcessingStage::PreMix, false, &mut stack, "t", 1).unwrap();
    assert!(stack.last().unwrap().executing);
    handle_endif(&mut stack, "t", 2).unwrap();
}

#[test]
fn if_stage_not_premix() {
    let v = Variables::new();
    let mut stack = CondStack::new();
    handle_if("stage == premix", &v, ProcessingStage::PostMix, false, &mut stack, "t", 1).unwrap();
    assert!(!stack.last().unwrap().executing);
    handle_endif(&mut stack, "t", 2).unwrap();
}

#[test]
fn if_device_capture() {
    let v = Variables::new();
    let mut stack = CondStack::new();
    handle_if("device_type == capture", &v, ProcessingStage::Unset, true, &mut stack, "t", 1).unwrap();
    assert!(stack.last().unwrap().executing);
    handle_endif(&mut stack, "t", 2).unwrap();
}

#[test]
fn endif_without_if() {
    let mut stack = CondStack::new();
    let result = handle_endif(&mut stack, "t", 1);
    assert!(result.is_err());
}

#[test]
fn else_without_if() {
    let mut stack = CondStack::new();
    let result = handle_else(&mut stack, "t", 1);
    assert!(result.is_err());
}

#[test]
fn undefined_variable() {
    let v = Variables::new();
    let mut stack = CondStack::new();
    let result = handle_if("x", &v, ProcessingStage::Unset, false, &mut stack, "t", 1);
    assert!(result.is_err());
}

/// Every relation, against a number and against a variable.
#[test]
fn if_relations() {
    let mut v = vars_with("x", 3.0);
    v.set("y", 4.0_f64.to_bits());
    for (text, expected) in [
        ("x == 3", true),
        ("x != 3", false),
        ("x >= 3", true),
        ("x <= 2", false),
        ("x < y", true),
        ("x > y", false),
        ("x == y", false),
        ("!x == y", true),
    ] {
        let mut stack = CondStack::new();
        handle_if(text, &v, ProcessingStage::Unset, false, &mut stack, "t", 1).unwrap();
        assert_eq!(stack.last().unwrap().executing, expected, "{text}");
    }
}

#[test]
fn if_failures_say_what_is_wrong() {
    let v = vars_with("x", 3.0);
    for (text, expected) in [
        ("y > 1", "t:7: undefined variable 'y'"),
        ("x > y", "t:7: undefined variable 'y'"),
        ("stage == nowhere", "t:7: unknown stage 'nowhere'"),
        ("stage > premix", "t:7: operator '>' not supported for stage"),
        ("device_type < capture", "t:7: operator '<' not supported for device_type"),
    ] {
        let mut stack = CondStack::new();
        let e = handle_if(text, &v, ProcessingStage::Unset, false, &mut stack, "t", 7).unwrap_err();
        assert_eq!(e.message(), expected, "{text}");
        assert!(stack.is_empty());
    }
    let mut stack = CondStack::new();
    let e = handle_elseif("x", &v, ProcessingStage::Unset, false, &mut stack, "t", 7).unwrap_err();
    assert_eq!(e.message(), "t:7: ElseIf without matching If");
    assert_eq!(handle_else(&mut stack, "t", 8).unwrap_err().message(), "t:8: Else without matching If");
    assert_eq!(
        handle_endif(&mut stack, "t", 9).unwrap_err().message(),
        "t:9: EndIf without matching If"
    );
}
