use vxapo_driver::host::parse::commands::cmd_expr;
use vxapo_driver::host::parse::commands::cmd_expr::{MathFunction, Variables};
use vxapo_driver::host::parse::commands::machine::{
    out_of_domain, FloatWork, Machine, MachineStep,
};
use vxapo_driver::host::parse::parser::ConfigError;

fn num(bits: u64) -> f64 {
    f64::from_bits(bits)
}

fn apply(f: MathFunction, x: f64) -> f64 {
    match f {
        MathFunction::Abs => x.abs(),
        MathFunction::Sqrt => x.sqrt(),
        MathFunction::Sin => x.sin(),
        MathFunction::Cos => x.cos(),
        MathFunction::Tan => x.tan(),
        MathFunction::Log => x.ln(),
        MathFunction::Log10 => x.log10(),
        MathFunction::Floor => x.floor(),
        MathFunction::Ceil => x.ceil(),
        MathFunction::Round => x.round(),
        MathFunction::DbToLinear => 10.0_f64.powf(x / 20.0),
        MathFunction::LinearToDb => 20.0 * x.log10(),
    }
}

fn compute(machine: &Machine, work: FloatWork) -> Result<f64, ConfigError> {
    match work {
        FloatWork::Parse(text) => text.parse::<f64>().map_err(|_| machine.invalid_number(&text)),
        FloatWork::Pi => Ok(std::f64::consts::PI),
        FloatWork::Euler => Ok(std::f64::consts::E),
        FloatWork::Negate(a) => Ok(-num(a)),
        FloatWork::Plus(a, b) => Ok(num(a) + num(b)),
        FloatWork::Minus(a, b) => Ok(num(a) - num(b)),
        FloatWork::Times(a, b) => Ok(num(a) * num(b)),
        FloatWork::Divide(a, b) => Ok(num(a) / num(b)),
        FloatWork::Apply(f, a) => Ok(apply(f, num(a))),
    }
}

fn run(mut machine: Machine) -> Result<u64, ConfigError> {
    loop {
        match machine.next() {
            MachineStep::Compute(work) => {
                let x = compute(&machine, work)?;
                machine.supply(x.to_bits());
            }
            MachineStep::OutOfDomain { complaint, arg } => {
                return Err(out_of_domain(complaint, &format!("{}", num(arg))));
            }
            MachineStep::Done(bits) => return Ok(bits),
            MachineStep::Failed(e) => return Err(e),
        }
    }
}

/// Carries out an assignment.
fn handle(value: &str, v: &mut Variables, file: &str, line: usize) -> Result<(), ConfigError> {
    let a = cmd_expr::handle(value, v, file, line)?;
    let bits = run(Machine::new(a.program, file, line))?;
    v.set(&a.name, bits);
    Ok(())
}

fn get(v: &Variables, name: &str) -> f64 {
    num(v.get(name).unwrap())
}

fn vars() -> Variables {
    Variables::new()
}

#[test]
fn eval_integer() {
    let mut v = vars();
    handle("x = 42", &mut v, "test.txt", 1).unwrap();
    assert_eq!(get(&v, "x"), 42.0);
}

#[test]
fn eval_float() {
    let mut v = vars();
    handle("gain = 0.5", &mut v, "test.txt", 1).unwrap();
    assert_eq!(get(&v, "gain"), 0.5);
}

#[test]
fn eval_negative() {
    let mut v = vars();
    handle("x = -3.14", &mut v, "test.txt", 1).unwrap();
    assert!((get(&v, "x") - (-3.14)).abs() < 1e-10);
}

#[test]
fn eval_addition() {
    let mut v = vars();
    handle("x = 1 + 2", &mut v, "test.txt", 1).unwrap();
    assert_eq!(get(&v, "x"), 3.0);
}

#[test]
fn eval_precedence() {
    let mut v = vars();
    handle("x = 1 + 2 * 3", &mut v, "test.txt", 1).unwrap();
    assert_eq!(get(&v, "x"), 7.0);
}

#[test]
fn eval_parentheses() {
    let mut v = vars();
    handle("x = (1 + 2) * 3", &mut v, "test.txt", 1).unwrap();
    assert_eq!(get(&v, "x"), 9.0);
}

#[test]
fn eval_complex() {
    let mut v = vars();
    handle("x = (2 + 3) * (4 - 1) / 5", &mut v, "test.txt", 1).unwrap();
    assert_eq!(get(&v, "x"), 3.0);
}

#[test]
fn eval_variable_ref() {
    let mut v = vars();
    handle("x = 10", &mut v, "test.txt", 1).unwrap();
    handle("y = x + 5", &mut v, "test.txt", 2).unwrap();
    assert_eq!(get(&v, "y"), 15.0);
}

#[test]
fn eval_undefined_variable() {
    let mut v = vars();
    let result = handle("y = x + 1", &mut v, "test.txt", 1);
    assert!(result.is_err());
}

#[test]
fn eval_db_to_linear() {
    let mut v = vars();
    handle("x = db_to_linear(0)", &mut v, "test.txt", 1).unwrap();
    assert!((get(&v, "x") - 1.0).abs() < 1e-10);
}

#[test]
fn eval_db_to_linear_neg6() {
    let mut v = vars();
    handle("x = db_to_linear(-6)", &mut v, "test.txt", 1).unwrap();
    assert!((get(&v, "x") - 0.5012).abs() < 0.001);
}

#[test]
fn eval_linear_to_db() {
    let mut v = vars();
    handle("x = linear_to_db(1)", &mut v, "test.txt", 1).unwrap();
    assert!((get(&v, "x")).abs() < 1e-10);
}

#[test]
fn eval_sqrt() {
    let mut v = vars();
    handle("x = sqrt(16)", &mut v, "test.txt", 1).unwrap();
    assert_eq!(get(&v, "x"), 4.0);
}

#[test]
fn eval_abs() {
    let mut v = vars();
    handle("x = abs(-42)", &mut v, "test.txt", 1).unwrap();
    assert_eq!(get(&v, "x"), 42.0);
}

#[test]
fn eval_pi() {
    let mut v = vars();
    handle("x = pi", &mut v, "test.txt", 1).unwrap();
    assert!((get(&v, "x") - std::f64::consts::PI).abs() < 1e-10);
}

#[test]
fn eval_no_equals() {
    let mut v = vars();
    let result = handle("x 42", &mut v, "test.txt", 1);
    assert!(result.is_err());
}

#[test]
fn eval_empty_var() {
    let mut v = vars();
    let result = handle(" = 42", &mut v, "test.txt", 1);
    assert!(result.is_err());
}

#[test]
fn eval_empty_expr() {
    let mut v = vars();
    let result = handle("x = ", &mut v, "test.txt", 1);
    assert!(result.is_err());
}

#[test]
fn eval_division_by_zero() {
    let mut v = vars();
    let result = handle("x = 1 / 0", &mut v, "test.txt", 1);
    assert!(result.is_err());
}

#[test]
fn eval_unknown_function() {
    let mut v = vars();
    let result = handle("x = foobar(1)", &mut v, "test.txt", 1);
    assert!(result.is_err());
}

#[test]
fn eval_overwrite_variable() {
    let mut v = vars();
    handle("x = 1", &mut v, "test.txt", 1).unwrap();
    handle("x = 2", &mut v, "test.txt", 2).unwrap();
    assert_eq!(get(&v, "x"), 2.0);
}

fn message(value: &str) -> String {
    let mut v = vars();
    handle(value, &mut v, "test.txt", 3).unwrap_err().message()
}

#[test]
fn eval_euler_and_rounding() {
    let mut v = vars();
    handle("a = e", &mut v, "test.txt", 1).unwrap();
    assert_eq!(get(&v, "a"), std::f64::consts::E);
    handle("b = floor(2.7) + ceil(2.1) + round(2.5)", &mut v, "test.txt", 2).unwrap();
    assert_eq!(get(&v, "b"), 8.0);
    handle("c = log10(1000) - ln(1)", &mut v, "test.txt", 3).unwrap();
    assert!((get(&v, "c") - 3.0).abs() < 1e-10);
    handle("d = 1.5e-3", &mut v, "test.txt", 4).unwrap();
    assert_eq!(get(&v, "d"), 0.0015);
}

#[test]
fn eval_failures_say_what_is_wrong() {
    assert_eq!(message("x = 1 / 0"), "test.txt:3: division by zero");
    assert_eq!(message("x = y"), "test.txt:3: undefined variable 'y'");
    assert_eq!(message("x = foobar(1)"), ":0: unknown function 'foobar'");
    assert_eq!(message("x = sqrt(-4)"), ":0: sqrt of negative number -4");
    assert_eq!(message("x = log(0)"), ":0: log of non-positive number 0");
    assert_eq!(message("x = log10(-1)"), ":0: log10 of non-positive number -1");
    assert_eq!(message("x = linear_to_db(0)"), ":0: linear_to_db of non-positive 0");
    assert_eq!(message("x = (1 + 2"), "test.txt:3: missing closing ')'");
    assert_eq!(message("x = 1.2.3"), "test.txt:3: invalid number '1.2.3'");
}

/// An argument is computed before the function is looked up, and an operand before the
/// division is refused.
#[test]
fn eval_reports_the_first_failure() {
    assert_eq!(message("x = foobar(y)"), "test.txt:3: undefined variable 'y'");
    assert_eq!(message("x = 1 / (y - y)"), "test.txt:3: undefined variable 'y'");
}
