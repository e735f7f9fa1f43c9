//! Computing the value of an expression by its steps.
//!
//! The caller does the arithmetic on floating-point numbers; this module says
//! what is to be computed next, on which numbers, and when there is an error.
//! Numbers are carried as the bits of their floating-point form.

use vstd::prelude::*;
use crate::host::parse::commands::cmd_expr;
use crate::host::parse::commands::cmd_expr::{
    compile_expression, Instr, InstrView, MathFunction, Variables,
};
use crate::host::parse::parser::{ConfigError, ConfigErrorView};
use crate::text::{concat2, concat3};

verus! {

/// The bit that tells negative numbers.
pub const SIGN_BIT: u64 = 0x8000_0000_0000_0000;

/// The bits of infinity; a larger magnitude is that of no number.
pub const INFINITY_BITS: u64 = 0x7FF0_0000_0000_0000;

// ---------------------------------------------------------------------------
// Numbers by their bits
// ---------------------------------------------------------------------------
/// The bits of a number without its sign.
pub open spec fn magnitude(bits: u64) -> int {
    if bits >= SIGN_BIT {
        bits - SIGN_BIT
    } else {
        bits as int
    }
}

/// Whether bits are those of a number.
pub open spec fn is_number(bits: u64) -> bool {
    magnitude(bits) <= INFINITY_BITS
}

/// Whether a number is zero, of either sign.
pub open spec fn is_zero(bits: u64) -> bool {
    magnitude(bits) == 0
}

/// Whether a number is less than zero.
pub open spec fn is_negative(bits: u64) -> bool {
    is_number(bits) && bits >= SIGN_BIT && !is_zero(bits)
}

fn magnitude_of(bits: u64) -> (r: u64)
    ensures
        r == magnitude(bits),
{
    if bits >= SIGN_BIT {
        bits - SIGN_BIT
    } else {
        bits
    }
}

/// Whether a number is zero, of either sign.
pub fn zero_bits(bits: u64) -> (r: bool)
    ensures
        r == is_zero(bits),
{
    magnitude_of(bits) == 0
}

/// Whether a number is less than zero.
pub fn negative_bits(bits: u64) -> (r: bool)
    ensures
        r == is_negative(bits),
{
    let m = magnitude_of(bits);
    m <= INFINITY_BITS && bits >= SIGN_BIT && m != 0
}

/// What is said of a number that a function has no value for; nothing where it
/// has one. What is no number passes.
pub open spec fn complaint(f: MathFunction, arg: u64) -> Option<Seq<char>> {
    match f {
        MathFunction::Sqrt => if is_negative(arg) {
            Some("sqrt of negative number "@)
        } else {
            None
        },
        MathFunction::Log => if is_negative(arg) || is_zero(arg) {
            Some("log of non-positive number "@)
        } else {
            None
        },
        MathFunction::Log10 => if is_negative(arg) || is_zero(arg) {
            Some("log10 of non-positive number "@)
        } else {
            None
        },
        MathFunction::LinearToDb => if is_negative(arg) || is_zero(arg) {
            Some("linear_to_db of non-positive "@)
        } else {
            None
        },
        _ => None,
    }
}

/// What is said of a number that a function has no value for.
pub fn call_function(f: MathFunction, arg: u64) -> (r: Option<&'static str>)
    ensures
        complaint(f, arg) == (match r {
            Some(s) => Some(s@),
            None => None,
        }),
{
    let negative = negative_bits(arg);
    let non_positive = negative || zero_bits(arg);
    match f {
        MathFunction::Sqrt => if negative {
            Some("sqrt of negative number ")
        } else {
            None
        },
        MathFunction::Log => if non_positive {
            Some("log of non-positive number ")
        } else {
            None
        },
        MathFunction::Log10 => if non_positive {
            Some("log10 of non-positive number ")
        } else {
            None
        },
        MathFunction::LinearToDb => if non_positive {
            Some("linear_to_db of non-positive ")
        } else {
            None
        },
        _ => None,
    }
}

/// The error for a number that a function has no value for, given what is said of
/// it and the number as text.
pub fn out_of_domain(complaint: &str, number: &str) -> (r: ConfigError)
    ensures
        r@ == (ConfigErrorView::SyntaxError {
            file: Seq::empty(),
            line: 0,
            message: complaint@ + number@,
        }),
{
    let m = concat2(complaint, number);
    proof {
        reveal_strlit("");
        assert(""@ =~= Seq::<char>::empty());
    }
    ConfigError::syntax("", 0, m.as_str())
}

// ---------------------------------------------------------------------------
// The machine
// ---------------------------------------------------------------------------
/// Something to compute.
#[derive(Clone, Debug, PartialEq, Eq)]
pub enum FloatWork {
    /// The number that a text denotes.
    Parse(String),
    /// The ratio of a circle's circumference to its diameter.
    Pi,
    /// The base of the natural logarithm.
    Euler,
    Negate(u64),
    Plus(u64, u64),
    Minus(u64, u64),
    Times(u64, u64),
    Divide(u64, u64),
    Apply(MathFunction, u64),
}

/// The contents of something to compute.
pub enum WorkView {
    Parse(Seq<char>),
    Pi,
    Euler,
    Negate(u64),
    Plus(u64, u64),
    Minus(u64, u64),
    Times(u64, u64),
    Divide(u64, u64),
    Apply(MathFunction, u64),
}

impl View for FloatWork {
    type V = WorkView;

    open spec fn view(&self) -> WorkView {
        match self {
            FloatWork::Parse(s) => WorkView::Parse(s@),
            FloatWork::Pi => WorkView::Pi,
            FloatWork::Euler => WorkView::Euler,
            FloatWork::Negate(a) => WorkView::Negate(*a),
            FloatWork::Plus(a, b) => WorkView::Plus(*a, *b),
            FloatWork::Minus(a, b) => WorkView::Minus(*a, *b),
            FloatWork::Times(a, b) => WorkView::Times(*a, *b),
            FloatWork::Divide(a, b) => WorkView::Divide(*a, *b),
            FloatWork::Apply(f, a) => WorkView::Apply(*f, *a),
        }
    }
}

/// What comes next.
#[derive(Clone, Debug, PartialEq, Eq)]
pub enum MachineStep {
    Compute(FloatWork),
    /// A function has no value for this number; the text says which.
    OutOfDomain { complaint: &'static str, arg: u64 },
    /// The value of the expression.
    Done(u64),
    Failed(ConfigError),
}

/// The contents of what comes next.
pub enum StepView {
    Compute(WorkView),
    OutOfDomain { complaint: Seq<char>, arg: u64 },
    Done(u64),
    Failed(ConfigErrorView),
}

impl View for MachineStep {
    type V = StepView;

    open spec fn view(&self) -> StepView {
        match self {
            MachineStep::Compute(w) => StepView::Compute(w@),
            MachineStep::OutOfDomain { complaint, arg } => StepView::OutOfDomain {
                complaint: complaint@,
                arg: *arg,
            },
            MachineStep::Done(v) => StepView::Done(*v),
            MachineStep::Failed(e) => StepView::Failed(e@),
        }
    }
}

/// A computation that has come some way.
#[derive(Clone, Debug, PartialEq, Eq)]
pub struct Machine {
    pub program: Vec<Instr>,
    /// The step that comes next.
    pub at: usize,
    pub stack: Vec<u64>,
    pub file: String,
    pub line: usize,
}

/// The contents of a computation.
pub struct MachineView {
    pub program: Seq<InstrView>,
    pub at: int,
    pub stack: Seq<u64>,
    pub file: Seq<char>,
    pub line: usize,
}

impl View for Machine {
    type V = MachineView;

    open spec fn view(&self) -> MachineView {
        MachineView {
            program: cmd_expr::code(self.program@),
            at: self.at as int,
            stack: self.stack@,
            file: self.file@,
            line: self.line,
        }
    }
}

/// Whether steps never need more numbers than there are, and leave one or end in
/// an error.
pub open spec fn is_program(code: Seq<InstrView>) -> bool {
    &&& cmd_expr::height(code, 0) is Some
    &&& cmd_expr::height(code, 0) == Some(1int) || (code.len() > 0 && code.last() is Fail)
}

/// Whether a computation has as many numbers as its steps so far leave.
pub open spec fn is_sound(m: MachineView) -> bool {
    &&& is_program(m.program)
    &&& 0 <= m.at <= m.program.len()
    &&& cmd_expr::height(m.program.take(m.at), 0) == Some(m.stack.len() as int)
    &&& m.at == m.program.len() ==> m.stack.len() == 1
}

/// How many numbers a step takes.
pub open spec fn operands(i: InstrView) -> int {
    match i {
        InstrView::Negate | InstrView::Call(_) => 1,
        InstrView::Plus | InstrView::Minus | InstrView::Times | InstrView::Divide => 2,
        _ => 0,
    }
}

/// Whether a step's result is computed by the caller.
pub open spec fn is_computed(i: InstrView) -> bool {
    !(i is Value) && !(i is Fail)
}

/// What a step asks for on a stack.
pub open spec fn asked(m: MachineView, i: InstrView) -> StepView {
    let top = m.stack.last();
    let below = m.stack[m.stack.len() - 2];
    match i {
        InstrView::Number(s) => StepView::Compute(WorkView::Parse(s)),
        InstrView::Pi => StepView::Compute(WorkView::Pi),
        InstrView::Euler => StepView::Compute(WorkView::Euler),
        InstrView::Negate => StepView::Compute(WorkView::Negate(top)),
        InstrView::Plus => StepView::Compute(WorkView::Plus(below, top)),
        InstrView::Minus => StepView::Compute(WorkView::Minus(below, top)),
        InstrView::Times => StepView::Compute(WorkView::Times(below, top)),
        InstrView::Divide => if is_zero(top) {
            StepView::Failed(
                ConfigErrorView::SyntaxError {
                    file: m.file,
                    line: m.line,
                    message: "division by zero"@,
                },
            )
        } else {
            StepView::Compute(WorkView::Divide(below, top))
        },
        InstrView::Call(f) => match complaint(f, top) {
            Some(text) => StepView::OutOfDomain { complaint: text, arg: top },
            None => StepView::Compute(WorkView::Apply(f, top)),
        },
        InstrView::Fail(e) => StepView::Failed(e),
        InstrView::Value(v) => StepView::Done(v),
    }
}

/// A computation with a step done that left a number in place of those that it
/// took.
pub open spec fn supplied(m: MachineView, bits: u64) -> MachineView {
    let n = operands(m.program[m.at]);
    MachineView { at: m.at + 1, stack: m.stack.take(m.stack.len() - n).push(bits), ..m }
}

/// How far a computation comes by itself.
pub open spec fn settled(m: MachineView) -> MachineView
    decreases m.program.len() - m.at,
{
    if 0 <= m.at < m.program.len() {
        match m.program[m.at] {
            InstrView::Value(v) => settled(supplied(m, v)),
            _ => m,
        }
    } else {
        m
    }
}

/// What comes next in a computation that cannot go on by itself.
pub open spec fn comes_next(m: MachineView) -> StepView {
    if m.at < m.program.len() {
        asked(m, m.program[m.at])
    } else {
        StepView::Done(m.stack.last())
    }
}

proof fn lemma_prefix_height(code: Seq<InstrView>, k: int)
    requires
        0 <= k <= code.len(),
        cmd_expr::height(code, 0) is Some,
    ensures
        cmd_expr::height(code.take(k), 0) is Some,
    decreases code.len(),
{
    if k == code.len() {
        assert(code.take(k) =~= code);
    } else {
        assert(code.drop_last().take(k) =~= code.take(k));
        lemma_prefix_height(code.drop_last(), k);
    }
}

/// The step that comes next finds the numbers that it takes, and the computation
/// stays sound once it is done.
proof fn lemma_step_is_sound(m: MachineView, bits: u64)
    requires
        is_sound(m),
        m.at < m.program.len(),
    ensures
        operands(m.program[m.at]) <= m.stack.len(),
        !(m.program[m.at] is Fail) ==> is_sound(supplied(m, bits)),
{
    let t = m.program.take(m.at + 1);
    let i = m.program[m.at];
    lemma_prefix_height(m.program, m.at + 1);
    assert(t.drop_last() =~= m.program.take(m.at));
    assert(t.last() == i);
    if m.at + 1 == m.program.len() {
        assert(t =~= m.program);
    }
}

impl Machine {
    /// The computation of a program from its beginning.
    pub fn new(program: Vec<Instr>, file: &str, line: usize) -> (m: Machine)
        requires
            is_program(cmd_expr::code(program@)),
        ensures
            m@ == (MachineView {
                program: cmd_expr::code(program@),
                at: 0,
                stack: Seq::empty(),
                file: file@,
                line,
            }),
            is_sound(m@),
    {
        let m = Machine { program, at: 0, stack: Vec::new(), file: file.to_owned(), line };
        assert(m@.program.take(0) =~= Seq::empty());
        assert(m@.program.len() > 0) by {
            if m@.program.len() == 0 {
                assert(cmd_expr::height(m@.program, 0) == Some(0int));
            }
        }
        assert(m@.stack =~= Seq::empty());
        m
    }

    /// The computation of the value of an expression.
    pub fn start(expr: &str, vars: &Variables, file: &str, line: usize) -> (m: Machine)
        ensures
            m@ == (MachineView {
                program: cmd_expr::expression(
                    expr@,
                    (cmd_expr::Env { vars: vars@, file: file@, line }),
                ),
                at: 0,
                stack: Seq::empty(),
                file: file@,
                line,
            }),
            is_sound(m@),
    {
        let program = compile_expression(expr, vars, file, line);
        proof {
            law_expressions_are_programs(
                expr@,
                cmd_expr::Env { vars: vars@, file: file@, line },
            );
        }
        Machine::new(program, file, line)
    }

    /// What comes next.
    pub fn next(&mut self) -> (r: MachineStep)
        requires
            is_sound(old(self)@),
        ensures
            final(self)@ == settled(old(self)@),
            is_sound(final(self)@),
            r@ == comes_next(final(self)@),
    {
        let ghost end = settled(self@);
        while self.at < self.program.len()
            invariant
                is_sound(self@),
                end == settled(self@),
                end == settled(old(self)@),
            decreases self.program@.len() - self.at,
        {
            let ghost m = self@;
            let at: usize = self.at;
            let n: usize = self.stack.len();
            proof {
                lemma_step_is_sound(m, 0);
                assert(m.program[m.at] == self.program@[at as int]@);
            }
            match &self.program[at] {
                Instr::Value(v) => {
                    let bits: u64 = *v;
                    proof {
                        lemma_step_is_sound(m, bits);
                    }
                    self.stack.push(bits);
                    self.at = at + 1;
                    assert(m.stack.take(n as int) =~= m.stack);
                    assert(self@ == supplied(m, bits));
                },
                Instr::Number(s) => {
                    return MachineStep::Compute(FloatWork::Parse(s.clone()));
                },
                Instr::Pi => {
                    return MachineStep::Compute(FloatWork::Pi);
                },
                Instr::Euler => {
                    return MachineStep::Compute(FloatWork::Euler);
                },
                Instr::Negate => {
                    return MachineStep::Compute(FloatWork::Negate(self.stack[n - 1]));
                },
                Instr::Plus => {
                    return MachineStep::Compute(
                        FloatWork::Plus(self.stack[n - 2], self.stack[n - 1]),
                    );
                },
                Instr::Minus => {
                    return MachineStep::Compute(
                        FloatWork::Minus(self.stack[n - 2], self.stack[n - 1]),
                    );
                },
                Instr::Times => {
                    return MachineStep::Compute(
                        FloatWork::Times(self.stack[n - 2], self.stack[n - 1]),
                    );
                },
                Instr::Divide => {
                    if zero_bits(self.stack[n - 1]) {
                        return MachineStep::Failed(
                            ConfigError::syntax(self.file.as_str(), self.line, "division by zero"),
                        );
                    }
                    return MachineStep::Compute(
                        FloatWork::Divide(self.stack[n - 2], self.stack[n - 1]),
                    );
                },
                Instr::Call(f) => {
                    let arg: u64 = self.stack[n - 1];
                    match call_function(*f, arg) {
                        Some(text) => {
                            return MachineStep::OutOfDomain { complaint: text, arg };
                        },
                        None => {
                            return MachineStep::Compute(FloatWork::Apply(*f, arg));
                        },
                    }
                },
                Instr::Fail(e) => {
                    return MachineStep::Failed(e.copy());
                },
            }
        }
        MachineStep::Done(self.stack[0])
    }

    /// Enters a number that was computed.
    pub fn supply(&mut self, bits: u64)
        requires
            is_sound(old(self)@),
            old(self)@.at < old(self)@.program.len(),
            is_computed(old(self)@.program[old(self)@.at]),
        ensures
            final(self)@ == supplied(old(self)@, bits),
            is_sound(final(self)@),
    {
        let ghost m = self@;
        let at: usize = self.at;
        proof {
            lemma_step_is_sound(m, bits);
            assert(m.program[m.at] == self.program@[at as int]@);
        }
        let taken: usize = match &self.program[at] {
            Instr::Negate => 1,
            Instr::Call(_) => 1,
            Instr::Plus => 2,
            Instr::Minus => 2,
            Instr::Times => 2,
            Instr::Divide => 2,
            _ => 0,
        };
        let n: usize = self.stack.len();
        let steps: usize = self.program.len();
        assert(at < steps);
        self.stack.truncate(n - taken);
        self.stack.push(bits);
        self.at = at + 1;
        assert(self@.stack =~= supplied(m, bits).stack);
    }

    /// The error for a text that denotes no number.
    pub fn invalid_number(&self, text: &str) -> (r: ConfigError)
        ensures
            r@ == (ConfigErrorView::SyntaxError {
                file: self@.file,
                line: self@.line,
                message: "invalid number '"@ + text@ + "'"@,
            }),
    {
        let m = concat3("invalid number '", text, "'");
        ConfigError::syntax(self.file.as_str(), self.line, m.as_str())
    }
}

/// The steps of every expression are a program.
pub proof fn law_expressions_are_programs(s: Seq<char>, env: cmd_expr::Env)
    ensures
        is_program(cmd_expr::expression(s, env)),
{
    cmd_expr::law_expression_is_balanced(s, env);
}

/// A computation comes to an end after as many numbers as the program has steps,
/// at most.
pub proof fn law_computation_advances(m: MachineView, bits: u64)
    requires
        is_sound(m),
        m.at < m.program.len(),
        is_computed(m.program[m.at]),
    ensures
        is_sound(supplied(m, bits)),
        supplied(m, bits).at == m.at + 1 <= m.program.len(),
{
    lemma_step_is_sound(m, bits);
}

} // verus!
