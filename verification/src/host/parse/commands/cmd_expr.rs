//! `Eval:` sets a variable to the value of an expression.
//!
//! An expression is read into a list of steps that compute its value on a stack,
//! in the order in which its parts are evaluated. Numbers are carried as the bits
//! of their floating-point form.

use vstd::prelude::*;
use crate::host::parse::parser::{ConfigError, ConfigErrorView};
use crate::text;
use crate::text::{char_is_ws, concat3, eq, position_of, sub_string, to_chars, trim_text};

verus! {

// ---------------------------------------------------------------------------
// Variables
// ---------------------------------------------------------------------------
/// A variable with its value.
#[derive(Clone, Debug, PartialEq, Eq)]
pub struct Variable {
    pub name: String,
    /// The bits of the value.
    pub bits: u64,
}

/// The variables of a configuration file; of several with one name the last
/// counts.
#[derive(Clone, Debug, PartialEq, Eq)]
pub struct Variables {
    pub entries: Vec<Variable>,
}

/// What some settings of variables come to.
pub open spec fn settings(v: Seq<Variable>) -> Map<Seq<char>, u64>
    decreases v.len(),
{
    if v.len() == 0 {
        Map::empty()
    } else {
        settings(v.drop_last()).insert(v.last().name@, v.last().bits)
    }
}

/// The value of a variable that may be missing.
pub open spec fn value_of(vars: Map<Seq<char>, u64>, name: Seq<char>) -> Option<u64> {
    if vars.dom().contains(name) {
        Some(vars[name])
    } else {
        None
    }
}

impl View for Variables {
    type V = Map<Seq<char>, u64>;

    open spec fn view(&self) -> Map<Seq<char>, u64> {
        settings(self.entries@)
    }
}

impl Variables {
    /// No variables.
    pub fn new() -> (r: Variables)
        ensures
            r@ == Map::<Seq<char>, u64>::empty(),
    {
        Variables { entries: Vec::new() }
    }

    /// The value of a variable.
    pub fn get(&self, name: &str) -> (r: Option<u64>)
        ensures
            r == value_of(self@, name@),
    {
        let mut i: usize = self.entries.len();
        assert(self.entries@.take(i as int) =~= self.entries@);
        while i > 0
            invariant
                i <= self.entries.len(),
                value_of(self@, name@) == value_of(
                    settings(self.entries@.take(i as int)),
                    name@,
                ),
            decreases i,
        {
            i -= 1;
            let ghost t = self.entries@.take(i + 1);
            assert(t.drop_last() =~= self.entries@.take(i as int));
            assert(t.last() == self.entries@[i as int]);
            if eq(self.entries[i].name.as_str(), name) {
                return Some(self.entries[i].bits);
            }
        }
        None
    }

    /// Sets a variable.
    pub fn set(&mut self, name: &str, bits: u64)
        ensures
            final(self)@ == old(self)@.insert(name@, bits),
    {
        let ghost before = self.entries@;
        self.entries.push(Variable { name: name.to_owned(), bits });
        assert(self.entries@.drop_last() =~= before);
    }
}

// ---------------------------------------------------------------------------
// Steps
// ---------------------------------------------------------------------------
/// A function of one number.
#[derive(Clone, Copy, Debug, PartialEq, Eq, Structural)]
pub enum MathFunction {
    Abs,
    Sqrt,
    Sin,
    Cos,
    Tan,
    /// The natural logarithm.
    Log,
    Log10,
    Floor,
    Ceil,
    Round,
    DbToLinear,
    LinearToDb,
}

/// The function of a name.
pub open spec fn function_named(name: Seq<char>) -> Option<MathFunction> {
    if name == "abs"@ {
        Some(MathFunction::Abs)
    } else if name == "sqrt"@ {
        Some(MathFunction::Sqrt)
    } else if name == "sin"@ {
        Some(MathFunction::Sin)
    } else if name == "cos"@ {
        Some(MathFunction::Cos)
    } else if name == "tan"@ {
        Some(MathFunction::Tan)
    } else if name == "log"@ || name == "ln"@ {
        Some(MathFunction::Log)
    } else if name == "log10"@ {
        Some(MathFunction::Log10)
    } else if name == "floor"@ {
        Some(MathFunction::Floor)
    } else if name == "ceil"@ {
        Some(MathFunction::Ceil)
    } else if name == "round"@ {
        Some(MathFunction::Round)
    } else if name == "db_to_linear"@ {
        Some(MathFunction::DbToLinear)
    } else if name == "linear_to_db"@ {
        Some(MathFunction::LinearToDb)
    } else {
        None
    }
}

/// The function of a name.
pub fn find_function(name: &str) -> (r: Option<MathFunction>)
    ensures
        r == function_named(name@),
{
    if eq(name, "abs") {
        Some(MathFunction::Abs)
    } else if eq(name, "sqrt") {
        Some(MathFunction::Sqrt)
    } else if eq(name, "sin") {
        Some(MathFunction::Sin)
    } else if eq(name, "cos") {
        Some(MathFunction::Cos)
    } else if eq(name, "tan") {
        Some(MathFunction::Tan)
    } else if eq(name, "log") || eq(name, "ln") {
        Some(MathFunction::Log)
    } else if eq(name, "log10") {
        Some(MathFunction::Log10)
    } else if eq(name, "floor") {
        Some(MathFunction::Floor)
    } else if eq(name, "ceil") {
        Some(MathFunction::Ceil)
    } else if eq(name, "round") {
        Some(MathFunction::Round)
    } else if eq(name, "db_to_linear") {
        Some(MathFunction::DbToLinear)
    } else if eq(name, "linear_to_db") {
        Some(MathFunction::LinearToDb)
    } else {
        None
    }
}

/// One step of a computation on a stack of numbers.
#[derive(Clone, Debug, PartialEq, Eq)]
pub enum Instr {
    /// Push the number that a text denotes; an error if it denotes none.
    Number(String),
    /// Push a number.
    Value(u64),
    /// Push the ratio of a circle's circumference to its diameter.
    Pi,
    /// Push the base of the natural logarithm.
    Euler,
    /// Replace the number on top by its opposite.
    Negate,
    /// Replace the two numbers on top by the result of an operation.
    Plus,
    Minus,
    Times,
    /// An error if the divisor is zero.
    Divide,
    /// Replace the number on top by the result of a function.
    Call(MathFunction),
    /// Stop with an error.
    Fail(ConfigError),
}

/// The contents of a step.
pub enum InstrView {
    Number(Seq<char>),
    Value(u64),
    Pi,
    Euler,
    Negate,
    Plus,
    Minus,
    Times,
    Divide,
    Call(MathFunction),
    Fail(ConfigErrorView),
}

impl View for Instr {
    type V = InstrView;

    open spec fn view(&self) -> InstrView {
        match self {
            Instr::Number(s) => InstrView::Number(s@),
            Instr::Value(v) => InstrView::Value(*v),
            Instr::Pi => InstrView::Pi,
            Instr::Euler => InstrView::Euler,
            Instr::Negate => InstrView::Negate,
            Instr::Plus => InstrView::Plus,
            Instr::Minus => InstrView::Minus,
            Instr::Times => InstrView::Times,
            Instr::Divide => InstrView::Divide,
            Instr::Call(f) => InstrView::Call(*f),
            Instr::Fail(e) => InstrView::Fail(e@),
        }
    }
}

/// The contents of a list of steps.
pub open spec fn code(v: Seq<Instr>) -> Seq<InstrView> {
    v.map_values(|i: Instr| i@)
}

// ---------------------------------------------------------------------------
// The grammar
// ---------------------------------------------------------------------------
/// What an expression is read in.
pub struct Env {
    pub vars: Map<Seq<char>, u64>,
    pub file: Seq<char>,
    pub line: usize,
}

/// What reading a part of an expression came to: the steps, and where the rest
/// begins; nowhere where the last step is an error.
pub struct Parsed {
    pub code: Seq<InstrView>,
    pub next: Option<int>,
}

/// A part that was read.
pub open spec fn done(code: Seq<InstrView>, next: int) -> Parsed {
    Parsed { code, next: Some(next) }
}

/// A part that could not be read further.
pub open spec fn failed(code: Seq<InstrView>, env: Env, message: Seq<char>) -> Parsed {
    Parsed {
        code: code.push(
            InstrView::Fail(
                ConfigErrorView::SyntaxError { file: env.file, line: env.line, message },
            ),
        ),
        next: None,
    }
}

/// A part that stopped after some steps.
pub open spec fn stopped(code: Seq<InstrView>) -> Parsed {
    Parsed { code, next: None }
}

/// The first place from `i` on where there is no space.
pub open spec fn after_spaces(s: Seq<char>, i: int) -> int
    decreases s.len() - i,
{
    if 0 <= i < s.len() && s[i] == ' ' {
        after_spaces(s, i + 1)
    } else {
        i
    }
}

/// Whether the next character, after spaces, is `c`.
pub open spec fn next_is(s: Seq<char>, i: int, c: char) -> bool {
    let j = after_spaces(s, i);
    0 <= j < s.len() && s[j] == c
}

/// Whether a character can stand at place `i` of a number that begins at `start`.
pub open spec fn in_number(s: Seq<char>, start: int, i: int) -> bool {
    let c = s[i];
    text::is_digit(c) || c == '.' || c == 'e' || c == 'E' || (c == '-' && i > start && (s[i - 1]
        == 'e' || s[i - 1] == 'E'))
}

/// Where a number that begins at `start` ends, from `i` on.
pub open spec fn number_end(s: Seq<char>, start: int, i: int) -> int
    decreases s.len() - i,
{
    if 0 <= i < s.len() && in_number(s, start, i) {
        number_end(s, start, i + 1)
    } else {
        i
    }
}

/// Whether a character is a letter of ASCII.
pub open spec fn is_letter(c: char) -> bool {
    ('a' <= c <= 'z') || ('A' <= c <= 'Z')
}

/// Whether a character can stand in a name.
pub open spec fn in_name(c: char) -> bool {
    is_letter(c) || text::is_digit(c) || c == '_'
}

/// Where a name ends, from `i` on.
pub open spec fn name_end(s: Seq<char>, i: int) -> int
    decreases s.len() - i,
{
    if 0 <= i < s.len() && in_name(s[i]) {
        name_end(s, i + 1)
    } else {
        i
    }
}

/// What is left from `i` on, without white space at its start.
pub open spec fn rest_of(s: Seq<char>, i: int) -> Seq<char> {
    text::trim_start(s.subrange(i, s.len() as int))
}

/// Reads a sum: products, each after the first with a plus or a minus before it.
pub open spec fn additive(s: Seq<char>, i: int, env: Env) -> Parsed
    decreases s.len() - i, 5int,
{
    let first = multiplicative(s, i, env);
    match first.next {
        Some(k) => if i < k <= s.len() {
            additive_rest(s, k, first.code, env)
        } else {
            stopped(first.code)
        },
        None => first,
    }
}

/// Reads what follows a product in a sum.
pub open spec fn additive_rest(s: Seq<char>, i: int, before: Seq<InstrView>, env: Env) -> Parsed
    decreases s.len() - i, 4int,
{
    let j = after_spaces(s, i);
    if i <= j < s.len() && (s[j] == '+' || s[j] == '-') {
        let part = multiplicative(s, j + 1, env);
        let op = if s[j] == '+' {
            InstrView::Plus
        } else {
            InstrView::Minus
        };
        match part.next {
            Some(k) => if i < k <= s.len() {
                additive_rest(s, k, (before + part.code).push(op), env)
            } else {
                stopped(before + part.code)
            },
            None => stopped(before + part.code),
        }
    } else {
        done(before, j)
    }
}

/// Reads a product: factors, each after the first with a times or a divided-by
/// before it.
pub open spec fn multiplicative(s: Seq<char>, i: int, env: Env) -> Parsed
    decreases s.len() - i, 3int,
{
    let first = unary(s, i, env);
    match first.next {
        Some(k) => if i < k <= s.len() {
            multiplicative_rest(s, k, first.code, env)
        } else {
            stopped(first.code)
        },
        None => first,
    }
}

/// Reads what follows a factor in a product.
pub open spec fn multiplicative_rest(
    s: Seq<char>,
    i: int,
    before: Seq<InstrView>,
    env: Env,
) -> Parsed
    decreases s.len() - i, 2int,
{
    let j = after_spaces(s, i);
    if i <= j < s.len() && (s[j] == '*' || s[j] == '/') {
        let part = unary(s, j + 1, env);
        let op = if s[j] == '*' {
            InstrView::Times
        } else {
            InstrView::Divide
        };
        match part.next {
            Some(k) => if i < k <= s.len() {
                multiplicative_rest(s, k, (before + part.code).push(op), env)
            } else {
                stopped(before + part.code)
            },
            None => stopped(before + part.code),
        }
    } else {
        done(before, j)
    }
}

/// Reads a factor: a primary with at most one sign before it.
pub open spec fn unary(s: Seq<char>, i: int, env: Env) -> Parsed
    decreases s.len() - i, 1int,
{
    let j = after_spaces(s, i);
    if i <= j < s.len() && s[j] == '-' {
        let part = primary(s, j + 1, env);
        match part.next {
            Some(k) => done(part.code.push(InstrView::Negate), k),
            None => part,
        }
    } else if i <= j < s.len() && s[j] == '+' {
        primary(s, j + 1, env)
    } else {
        primary(s, i, env)
    }
}

/// Reads the end of a bracket: its steps are followed by others, unless it is not
/// closed.
pub open spec fn closed(
    s: Seq<char>,
    inner: Parsed,
    env: Env,
    open_text: Seq<char>,
    then: Seq<InstrView>,
    fails: bool,
) -> Parsed {
    match inner.next {
        None => inner,
        Some(k) => if !next_is(s, k, ')') {
            failed(inner.code, env, open_text)
        } else if fails {
            stopped(inner.code + then)
        } else {
            done(inner.code + then, after_spaces(s, k) + 1)
        },
    }
}

/// The last step of the call of a function.
pub open spec fn call_step(name: Seq<char>) -> InstrView {
    match function_named(name) {
        Some(f) => InstrView::Call(f),
        None => InstrView::Fail(
            ConfigErrorView::SyntaxError {
                file: Seq::empty(),
                line: 0,
                message: "unknown function '"@ + name + "'"@,
            },
        ),
    }
}

/// Reads a name that is not that of a called function: a constant or a variable.
pub open spec fn named(name: Seq<char>, next: int, env: Env) -> Parsed {
    if name == "pi"@ || name == "PI"@ {
        done(seq![InstrView::Pi], next)
    } else if name == "e"@ || name == "E"@ {
        done(seq![InstrView::Euler], next)
    } else {
        match value_of(env.vars, name) {
            Some(v) => done(seq![InstrView::Value(v)], next),
            None => failed(Seq::empty(), env, "undefined variable '"@ + name + "'"@),
        }
    }
}

/// Reads a primary: a bracket, a number, the call of a function, a constant or a
/// variable.
pub open spec fn primary(s: Seq<char>, i: int, env: Env) -> Parsed
    decreases s.len() - i, 0int,
{
    let j = after_spaces(s, i);
    if !(i <= j) {
        stopped(Seq::empty())
    } else if j < s.len() && s[j] == '(' {
        closed(
            s,
            additive(s, j + 1, env),
            env,
            "missing closing ')'"@,
            Seq::empty(),
            false,
        )
    } else if j < s.len() && (text::is_digit(s[j]) || s[j] == '.') {
        let e = number_end(s, j, j);
        done(seq![InstrView::Number(s.subrange(j, e))], e)
    } else if j < s.len() && (is_letter(s[j]) || s[j] == '_') {
        let e = name_end(s, j);
        let name = s.subrange(j, e);
        let k = after_spaces(s, e);
        if i < k < s.len() && s[k] == '(' {
            closed(
                s,
                additive(s, k + 1, env),
                env,
                "missing closing ')' for function '"@ + name + "'"@,
                seq![call_step(name)],
                function_named(name) is None,
            )
        } else {
            named(name, k, env)
        }
    } else {
        failed(Seq::empty(), env, "unexpected character at '"@ + rest_of(s, j) + "'"@)
    }
}

/// The steps that compute the value of an expression: a sum with nothing after it.
pub open spec fn expression(s: Seq<char>, env: Env) -> Seq<InstrView> {
    let sum = additive(s, 0, env);
    match sum.next {
        None => sum.code,
        Some(k) => if rest_of(s, k).len() == 0 {
            sum.code
        } else {
            failed(
                sum.code,
                env,
                "unexpected trailing characters: '"@ + rest_of(s, k) + "'"@,
            ).code
        },
    }
}

// ---------------------------------------------------------------------------
// Reading
// ---------------------------------------------------------------------------
/// An expression that is being read.
pub struct ExprParser<'a> {
    pub input: Vec<char>,
    pub vars: &'a Variables,
    pub file: &'a str,
    pub line: usize,
}

/// A position that may be missing.
pub open spec fn opt_pos(p: Option<usize>) -> Option<int> {
    match p {
        Some(k) => Some(k as int),
        None => None,
    }
}

impl<'a> ExprParser<'a> {
    /// What the expression is read in.
    pub open spec fn env(&self) -> Env {
        Env { vars: self.vars@, file: self.file@, line: self.line }
    }

    /// Whether reading from `pos` came to `part`: its steps were added to those
    /// before, and the rest, if any, begins further on.
    pub open spec fn came_to(
        &self,
        pos: usize,
        part: Parsed,
        before: Seq<Instr>,
        after: Seq<Instr>,
        next: Option<usize>,
    ) -> bool {
        &&& code(after) == code(before) + part.code
        &&& opt_pos(next) == part.next
        &&& next matches Some(k) ==> pos < k <= self.input@.len()
    }

    fn skip_whitespace(&self, pos: usize) -> (r: usize)
        requires
            pos <= self.input@.len(),
        ensures
            r == after_spaces(self.input@, pos as int),
            pos <= r <= self.input@.len(),
            r < self.input@.len() ==> self.input@[r as int] != ' ',
    {
        let mut i: usize = pos;
        while i < self.input.len() && self.input[i] == ' '
            invariant
                pos <= i <= self.input@.len(),
                after_spaces(self.input@, pos as int) == after_spaces(self.input@, i as int),
            decreases self.input@.len() - i,
        {
            i += 1;
        }
        i
    }

    fn remaining(&self, pos: usize) -> (r: String)
        requires
            pos <= self.input@.len(),
        ensures
            r@ == rest_of(self.input@, pos as int),
    {
        let mut i: usize = pos;
        assert(self.input@.subrange(pos as int, self.input@.len() as int) =~= self.input@.subrange(
            i as int,
            self.input@.len() as int,
        ));
        while i < self.input.len() && char_is_ws(self.input[i])
            invariant
                pos <= i <= self.input@.len(),
                rest_of(self.input@, pos as int) == rest_of(self.input@, i as int),
            decreases self.input@.len() - i,
        {
            proof {
                let t = self.input@.subrange(i as int, self.input@.len() as int);
                assert(t[0] == self.input@[i as int]);
                assert(t.subrange(1, t.len() as int) =~= self.input@.subrange(
                    i + 1,
                    self.input@.len() as int,
                ));
            }
            i += 1;
        }
        proof {
            let t = self.input@.subrange(i as int, self.input@.len() as int);
            if t.len() > 0 {
                assert(t[0] == self.input@[i as int]);
            }
        }
        sub_string(self.input.as_slice(), i, self.input.len())
    }

    fn error(&self, message: &str) -> (r: Instr)
        ensures
            r@ == InstrView::Fail(
                ConfigErrorView::SyntaxError {
                    file: self.env().file,
                    line: self.env().line,
                    message: message@,
                },
            ),
    {
        Instr::Fail(ConfigError::syntax(self.file, self.line, message))
    }

    /// Reads a sum.
    pub fn parse_additive(&self, pos: usize, out: &mut Vec<Instr>) -> (r: Option<usize>)
        requires
            pos <= self.input@.len(),
        ensures
            self.came_to(
                pos,
                additive(self.input@, pos as int, self.env()),
                old(out)@,
                final(out)@,
                r,
            ),
        decreases self.input@.len() - pos, 5int,
    {
        let ghost s = self.input@;
        let ghost start = code(out@);
        let ghost whole = additive(s, pos as int, self.env());
        let mut at: usize = match self.parse_multiplicative(pos, out) {
            Some(k) => k,
            None => {
                return None;
            },
        };
        let ghost mut acc = multiplicative(s, pos as int, self.env()).code;
        loop
            invariant
                pos < at <= s.len(),
                s == self.input@,
                code(out@) == start + acc,
                start == code(old(out)@),
                whole == additive(s, pos as int, self.env()),
                whole == additive_rest(s, at as int, acc, self.env()),
            decreases s.len() - at,
        {
            let j = self.skip_whitespace(at);
            if j < self.input.len() && (self.input[j] == '+' || self.input[j] == '-') {
                let plus = self.input[j] == '+';
                let ghost part = multiplicative(s, j + 1, self.env());
                match self.parse_multiplicative(j + 1, out) {
                    Some(k) => {
                        let ghost op = if plus {
                            InstrView::Plus
                        } else {
                            InstrView::Minus
                        };
                        let ghost before = code(out@);
                        out.push(
                            if plus {
                                Instr::Plus
                            } else {
                                Instr::Minus
                            },
                        );
                        proof {
                            assert(code(out@) =~= before.push(op));
                            assert(code(out@) =~= start + (acc + part.code).push(op));
                            acc = (acc + part.code).push(op);
                        }
                        at = k;
                    },
                    None => {
                        assert(code(out@) =~= start + (acc + part.code));
                        return None;
                    },
                }
            } else {
                return Some(j);
            }
        }
    }

    /// Reads a product.
    pub fn parse_multiplicative(&self, pos: usize, out: &mut Vec<Instr>) -> (r: Option<usize>)
        requires
            pos <= self.input@.len(),
        ensures
            self.came_to(
                pos,
                multiplicative(self.input@, pos as int, self.env()),
                old(out)@,
                final(out)@,
                r,
            ),
        decreases self.input@.len() - pos, 3int,
    {
        let ghost s = self.input@;
        let ghost start = code(out@);
        let ghost whole = multiplicative(s, pos as int, self.env());
        let mut at: usize = match self.parse_unary(pos, out) {
            Some(k) => k,
            None => {
                return None;
            },
        };
        let ghost mut acc = unary(s, pos as int, self.env()).code;
        loop
            invariant
                pos < at <= s.len(),
                s == self.input@,
                code(out@) == start + acc,
                start == code(old(out)@),
                whole == multiplicative(s, pos as int, self.env()),
                whole == multiplicative_rest(s, at as int, acc, self.env()),
            decreases s.len() - at,
        {
            let j = self.skip_whitespace(at);
            if j < self.input.len() && (self.input[j] == '*' || self.input[j] == '/') {
                let times = self.input[j] == '*';
                let ghost part = unary(s, j + 1, self.env());
                match self.parse_unary(j + 1, out) {
                    Some(k) => {
                        let ghost op = if times {
                            InstrView::Times
                        } else {
                            InstrView::Divide
                        };
                        let ghost before = code(out@);
                        out.push(
                            if times {
                                Instr::Times
                            } else {
                                Instr::Divide
                            },
                        );
                        proof {
                            assert(code(out@) =~= before.push(op));
                            assert(code(out@) =~= start + (acc + part.code).push(op));
                            acc = (acc + part.code).push(op);
                        }
                        at = k;
                    },
                    None => {
                        assert(code(out@) =~= start + (acc + part.code));
                        return None;
                    },
                }
            } else {
                return Some(j);
            }
        }
    }

    /// Reads a factor.
    pub fn parse_unary(&self, pos: usize, out: &mut Vec<Instr>) -> (r: Option<usize>)
        requires
            pos <= self.input@.len(),
        ensures
            self.came_to(
                pos,
                unary(self.input@, pos as int, self.env()),
                old(out)@,
                final(out)@,
                r,
            ),
        decreases self.input@.len() - pos, 2int,
    {
        let ghost start = code(out@);
        let j = self.skip_whitespace(pos);
        if j < self.input.len() && self.input[j] == '-' {
            let ghost part = primary(self.input@, j + 1, self.env());
            match self.parse_primary(j + 1, out) {
                Some(k) => {
                    let ghost before = code(out@);
                    out.push(Instr::Negate);
                    assert(code(out@) =~= before.push(InstrView::Negate));
                    assert(code(out@) =~= start + part.code.push(InstrView::Negate));
                    Some(k)
                },
                None => None,
            }
        } else if j < self.input.len() && self.input[j] == '+' {
            self.parse_primary(j + 1, out)
        } else {
            self.parse_primary(pos, out)
        }
    }

    /// Reads a primary.
    pub fn parse_primary(&self, pos: usize, out: &mut Vec<Instr>) -> (r: Option<usize>)
        requires
            pos <= self.input@.len(),
        ensures
            self.came_to(
                pos,
                primary(self.input@, pos as int, self.env()),
                old(out)@,
                final(out)@,
                r,
            ),
        decreases self.input@.len() - pos, 1int,
    {
        let ghost s = self.input@;
        let ghost start = code(out@);
        let j = self.skip_whitespace(pos);
        if j < self.input.len() && self.input[j] == '(' {
            let ghost inner = additive(s, j + 1, self.env());
            let k = match self.parse_additive(j + 1, out) {
                Some(k) => k,
                None => {
                    return None;
                },
            };
            let c = self.skip_whitespace(k);
            if c < self.input.len() && self.input[c] == ')' {
                assert(start + (inner.code + Seq::empty()) =~= start + inner.code);
                Some(c + 1)
            } else {
                let ghost before = code(out@);
                let e = self.error("missing closing ')'");
                out.push(e);
                assert(code(out@) =~= before.push(e@));
                assert(code(out@) =~= start + inner.code.push(e@));
                None
            }
        } else if j < self.input.len() && (is_digit_char(self.input[j]) || self.input[j] == '.') {
            let end = self.find_number_end(j);
            let t = sub_string(self.input.as_slice(), j, end);
            out.push(Instr::Number(t));
            assert(code(out@) =~= start + seq![InstrView::Number(s.subrange(j as int, end as int))]);
            Some(end)
        } else if j < self.input.len() && (is_letter_char(self.input[j]) || self.input[j] == '_') {
            self.parse_identifier_or_function(pos, j, out)
        } else {
            let rest = self.remaining(j);
            let m = concat3("unexpected character at '", rest.as_str(), "'");
            let e = self.error(m.as_str());
            out.push(e);
            assert(code(out@) =~= start + Seq::<InstrView>::empty().push(e@));
            None
        }
    }

    fn find_number_end(&self, start: usize) -> (r: usize)
        requires
            start < self.input@.len(),
            text::is_digit(self.input@[start as int]) || self.input@[start as int] == '.',
        ensures
            r == number_end(self.input@, start as int, start as int),
            start < r <= self.input@.len(),
    {
        let mut i: usize = start;
        while i < self.input.len() && (is_digit_char(self.input[i]) || self.input[i] == '.'
            || self.input[i] == 'e' || self.input[i] == 'E' || (self.input[i] == '-' && i > start
            && (self.input[i - 1] == 'e' || self.input[i - 1] == 'E')))
            invariant
                start <= i <= self.input@.len(),
                start < self.input@.len(),
                text::is_digit(self.input@[start as int]) || self.input@[start as int] == '.',
                number_end(self.input@, start as int, start as int) == number_end(
                    self.input@,
                    start as int,
                    i as int,
                ),
            decreases self.input@.len() - i,
        {
            i += 1;
        }
        i
    }

    fn find_name_end(&self, start: usize) -> (r: usize)
        requires
            start < self.input@.len(),
            in_name(self.input@[start as int]),
        ensures
            r == name_end(self.input@, start as int),
            start < r <= self.input@.len(),
    {
        let mut i: usize = start;
        while i < self.input.len() && (is_letter_char(self.input[i]) || is_digit_char(
            self.input[i],
        ) || self.input[i] == '_')
            invariant
                start <= i <= self.input@.len(),
                start < self.input@.len(),
                in_name(self.input@[start as int]),
                name_end(self.input@, start as int) == name_end(self.input@, i as int),
            decreases self.input@.len() - i,
        {
            i += 1;
        }
        i
    }

    /// Reads the call of a function, a constant or a variable.
    fn parse_identifier_or_function(
        &self,
        pos: usize,
        start: usize,
        out: &mut Vec<Instr>,
    ) -> (r: Option<usize>)
        requires
            pos <= start < self.input@.len(),
            start == after_spaces(self.input@, pos as int),
            is_letter(self.input@[start as int]) || self.input@[start as int] == '_',
        ensures
            self.came_to(
                pos,
                primary(self.input@, pos as int, self.env()),
                old(out)@,
                final(out)@,
                r,
            ),
        decreases self.input@.len() - start, 0int,
    {
        let ghost s = self.input@;
        let ghost before = code(out@);
        let end = self.find_name_end(start);
        let name = sub_string(self.input.as_slice(), start, end);
        let k = self.skip_whitespace(end);
        if k < self.input.len() && self.input[k] == '(' {
            let ghost inner = additive(s, k + 1, self.env());
            let n = match self.parse_additive(k + 1, out) {
                Some(n) => n,
                None => {
                    return None;
                },
            };
            let c = self.skip_whitespace(n);
            let ghost mid = code(out@);
            if c < self.input.len() && self.input[c] == ')' {
                match find_function(name.as_str()) {
                    Some(f) => {
                        out.push(Instr::Call(f));
                        assert(code(out@) =~= mid.push(InstrView::Call(f)));
                        assert(code(out@) =~= before + (inner.code + seq![InstrView::Call(f)]));
                        Some(c + 1)
                    },
                    None => {
                        let m = concat3("unknown function '", name.as_str(), "'");
                        let e = Instr::Fail(ConfigError::syntax("", 0, m.as_str()));
                        proof {
                            reveal_strlit("");
                            assert(""@ =~= Seq::<char>::empty());
                        }
                        out.push(e);
                        assert(code(out@) =~= mid.push(e@));
                        assert(code(out@) =~= before + (inner.code + seq![e@]));
                        None
                    },
                }
            } else {
                let m = concat3("missing closing ')' for function '", name.as_str(), "'");
                let e = self.error(m.as_str());
                out.push(e);
                assert(code(out@) =~= mid.push(e@));
                assert(code(out@) =~= before + inner.code.push(e@));
                None
            }
        } else if eq(name.as_str(), "pi") || eq(name.as_str(), "PI") {
            out.push(Instr::Pi);
            assert(code(out@) =~= before + seq![InstrView::Pi]);
            Some(k)
        } else if eq(name.as_str(), "e") || eq(name.as_str(), "E") {
            out.push(Instr::Euler);
            assert(code(out@) =~= before + seq![InstrView::Euler]);
            Some(k)
        } else {
            match self.vars.get(name.as_str()) {
                Some(v) => {
                    out.push(Instr::Value(v));
                    assert(code(out@) =~= before + seq![InstrView::Value(v)]);
                    Some(k)
                },
                None => {
                    let m = concat3("undefined variable '", name.as_str(), "'");
                    let e = self.error(m.as_str());
                    out.push(e);
                    assert(code(out@) =~= before + Seq::<InstrView>::empty().push(e@));
                    None
                },
            }
        }
    }
}

fn is_digit_char(c: char) -> (r: bool)
    ensures
        r == text::is_digit(c),
{
    '0' <= c && c <= '9'
}

fn is_letter_char(c: char) -> (r: bool)
    ensures
        r == is_letter(c),
{
    ('a' <= c && c <= 'z') || ('A' <= c && c <= 'Z')
}

/// The steps that compute the value of an expression.
pub fn compile_expression(expr: &str, vars: &Variables, file: &str, line: usize) -> (r: Vec<Instr>)
    ensures
        code(r@) == expression(expr@, (Env { vars: vars@, file: file@, line })),
{
    let parser = ExprParser { input: to_chars(expr), vars, file, line };
    let mut out: Vec<Instr> = Vec::new();
    assert(code(out@) =~= Seq::empty());
    let ghost sum = additive(expr@, 0, parser.env());
    let end = parser.parse_additive(0, &mut out);
    assert(code(out@) =~= sum.code);
    match end {
        Some(k) => {
            let rest = parser.remaining(k);
            if !rest.as_str().is_empty() {
                let m = concat3("unexpected trailing characters: '", rest.as_str(), "'");
                let ghost before = code(out@);
                let e = parser.error(m.as_str());
                out.push(e);
                assert(code(out@) =~= before.push(e@));
            }
        },
        None => {},
    }
    out
}

/// A variable, and the steps that compute its value.
#[derive(Clone, Debug, PartialEq, Eq)]
pub struct Assignment {
    pub name: String,
    pub program: Vec<Instr>,
}

/// The contents of an assignment.
pub struct AssignmentView {
    pub name: Seq<char>,
    pub program: Seq<InstrView>,
}

impl View for Assignment {
    type V = AssignmentView;

    open spec fn view(&self) -> AssignmentView {
        AssignmentView { name: self.name@, program: code(self.program@) }
    }
}

/// What an `Eval:` line comes to: a variable and the steps that compute its value.
pub open spec fn assignment(value: Seq<char>, env: Env) -> Result<AssignmentView, ConfigErrorView> {
    let n = text::span_until(value, '=');
    let error = |message: Seq<char>| ConfigErrorView::SyntaxError {
        file: env.file,
        line: env.line,
        message,
    };
    if n == value.len() {
        Err(error("Eval: requires 'variable = expression' format"@))
    } else {
        let name = text::trim(value.subrange(0, n));
        let expr = text::trim(value.subrange(n + 1, value.len() as int));
        if name.len() == 0 {
            Err(error("Eval: missing variable name"@))
        } else if expr.len() == 0 {
            Err(error("Eval: missing expression"@))
        } else {
            Ok(AssignmentView { name, program: expression(expr, env) })
        }
    }
}

/// Reads an `Eval:` line. The caller computes the value by the steps, and sets the
/// variable to it.
pub fn handle(value: &str, vars: &Variables, file: &str, line: usize) -> (r: Result<
    Assignment,
    ConfigError,
>)
    ensures
        match assignment(value@, (Env { vars: vars@, file: file@, line })) {
            Ok(a) => r matches Ok(x) && x@ == a,
            Err(error) => r matches Err(e) && e@ == error,
        },
{
    let v = to_chars(value);
    assert(v@.subrange(0, v@.len() as int) =~= v@);
    let n = position_of(v.as_slice(), '=', 0);
    if n == v.len() {
        return Err(
            ConfigError::syntax(file, line, "Eval: requires 'variable = expression' format"),
        );
    }
    let left = sub_string(v.as_slice(), 0, n);
    let right = sub_string(v.as_slice(), n + 1, v.len());
    let name = trim_text(left.as_str());
    let expr = trim_text(right.as_str());
    if name.as_str().is_empty() {
        return Err(ConfigError::syntax(file, line, "Eval: missing variable name"));
    }
    if expr.as_str().is_empty() {
        return Err(ConfigError::syntax(file, line, "Eval: missing expression"));
    }
    Ok(Assignment { name, program: compile_expression(expr.as_str(), vars, file, line) })
}

// ---------------------------------------------------------------------------
// What the steps promise
// ---------------------------------------------------------------------------
/// How many numbers a step leaves on a stack of so many; none where it needs more
/// than there are.
pub open spec fn step_height(i: InstrView, n: int) -> Option<int> {
    match i {
        InstrView::Number(_) => Some(n + 1),
        InstrView::Value(_) => Some(n + 1),
        InstrView::Pi => Some(n + 1),
        InstrView::Euler => Some(n + 1),
        InstrView::Fail(_) => Some(n),
        InstrView::Negate => if n >= 1 {
            Some(n)
        } else {
            None
        },
        InstrView::Call(_) => if n >= 1 {
            Some(n)
        } else {
            None
        },
        _ => if n >= 2 {
            Some(n - 1)
        } else {
            None
        },
    }
}

/// How many numbers some steps leave on a stack of so many.
pub open spec fn height(code: Seq<InstrView>, n: int) -> Option<int>
    decreases code.len(),
{
    if code.len() == 0 {
        Some(n)
    } else {
        match height(code.drop_last(), n) {
            Some(m) => step_height(code.last(), m),
            None => None,
        }
    }
}

proof fn lemma_height_concat(a: Seq<InstrView>, b: Seq<InstrView>, n: int)
    ensures
        height(a + b, n) == (match height(a, n) {
            Some(m) => height(b, m),
            None => None,
        }),
    decreases b.len(),
{
    if b.len() == 0 {
        assert(a + b =~= a);
    } else {
        assert((a + b).drop_last() =~= a + b.drop_last());
        assert((a + b).last() == b.last());
        lemma_height_concat(a, b.drop_last(), n);
    }
}

proof fn lemma_height_push(a: Seq<InstrView>, i: InstrView, n: int)
    ensures
        height(a.push(i), n) == (match height(a, n) {
            Some(m) => step_height(i, m),
            None => None,
        }),
{
    assert(a.push(i).drop_last() =~= a);
}

/// Whether a part leaves one number more than there were, where it was read, and
/// never needs more than there are.
pub open spec fn balanced(p: Parsed, n: int) -> bool {
    &&& height(p.code, n) is Some
    &&& p.next is Some ==> height(p.code, n) == Some(n + 1)
}

/// Whether a part that was read ends at `low` or later within `s`, and one that
/// was not ends in an error.
pub open spec fn ended(p: Parsed, s: Seq<char>, low: int) -> bool {
    match p.next {
        Some(k) => low <= k <= s.len(),
        None => p.code.len() > 0 && p.code.last() is Fail,
    }
}

pub proof fn lemma_after_spaces(s: Seq<char>, i: int)
    requires
        0 <= i <= s.len(),
    ensures
        i <= after_spaces(s, i) <= s.len(),
    decreases s.len() - i,
{
    if i < s.len() && s[i] == ' ' {
        lemma_after_spaces(s, i + 1);
    }
}

proof fn lemma_number_end(s: Seq<char>, start: int, i: int)
    requires
        0 <= i <= s.len(),
    ensures
        i <= number_end(s, start, i) <= s.len(),
        i < s.len() && in_number(s, start, i) ==> i < number_end(s, start, i),
    decreases s.len() - i,
{
    if i < s.len() && in_number(s, start, i) {
        lemma_number_end(s, start, i + 1);
    }
}

proof fn lemma_name_end(s: Seq<char>, i: int)
    requires
        0 <= i <= s.len(),
    ensures
        i <= name_end(s, i) <= s.len(),
        i < s.len() && in_name(s[i]) ==> i < name_end(s, i),
    decreases s.len() - i,
{
    if i < s.len() && in_name(s[i]) {
        lemma_name_end(s, i + 1);
    }
}

proof fn lemma_additive(s: Seq<char>, i: int, env: Env, n: int)
    requires
        n >= 0,
        0 <= i <= s.len(),
    ensures
        balanced(additive(s, i, env), n),
        ended(additive(s, i, env), s, i + 1),
    decreases s.len() - i, 5int,
{
    let first = multiplicative(s, i, env);
    lemma_multiplicative(s, i, env, n);
    match first.next {
        Some(k) => {
            lemma_additive_rest(s, k, first.code, env, n);
        },
        None => {},
    }
}

proof fn lemma_additive_rest(s: Seq<char>, i: int, before: Seq<InstrView>, env: Env, n: int)
    requires
        n >= 0,
        0 <= i <= s.len(),
        height(before, n) == Some(n + 1),
    ensures
        balanced(additive_rest(s, i, before, env), n),
        ended(additive_rest(s, i, before, env), s, i),
    decreases s.len() - i, 4int,
{
    let j = after_spaces(s, i);
    lemma_after_spaces(s, i);
    if j < s.len() && (s[j] == '+' || s[j] == '-') {
        let part = multiplicative(s, j + 1, env);
        let op = if s[j] == '+' {
            InstrView::Plus
        } else {
            InstrView::Minus
        };
        lemma_multiplicative(s, j + 1, env, n + 1);
        lemma_height_concat(before, part.code, n);
        match part.next {
            Some(k) => {
                lemma_height_push(before + part.code, op, n);
                lemma_additive_rest(s, k, (before + part.code).push(op), env, n);
            },
            None => {},
        }
    }
}

pub proof fn lemma_multiplicative(s: Seq<char>, i: int, env: Env, n: int)
    requires
        n >= 0,
        0 <= i <= s.len(),
    ensures
        balanced(multiplicative(s, i, env), n),
        ended(multiplicative(s, i, env), s, i + 1),
    decreases s.len() - i, 3int,
{
    let first = unary(s, i, env);
    lemma_unary(s, i, env, n);
    match first.next {
        Some(k) => {
            lemma_multiplicative_rest(s, k, first.code, env, n);
        },
        None => {},
    }
}

proof fn lemma_multiplicative_rest(
    s: Seq<char>,
    i: int,
    before: Seq<InstrView>,
    env: Env,
    n: int,
)
    requires
        n >= 0,
        0 <= i <= s.len(),
        height(before, n) == Some(n + 1),
    ensures
        balanced(multiplicative_rest(s, i, before, env), n),
        ended(multiplicative_rest(s, i, before, env), s, i),
    decreases s.len() - i, 2int,
{
    let j = after_spaces(s, i);
    lemma_after_spaces(s, i);
    if j < s.len() && (s[j] == '*' || s[j] == '/') {
        let part = unary(s, j + 1, env);
        let op = if s[j] == '*' {
            InstrView::Times
        } else {
            InstrView::Divide
        };
        lemma_unary(s, j + 1, env, n + 1);
        lemma_height_concat(before, part.code, n);
        match part.next {
            Some(k) => {
                lemma_height_push(before + part.code, op, n);
                lemma_multiplicative_rest(s, k, (before + part.code).push(op), env, n);
            },
            None => {},
        }
    }
}

pub proof fn lemma_unary(s: Seq<char>, i: int, env: Env, n: int)
    requires
        n >= 0,
        0 <= i <= s.len(),
    ensures
        balanced(unary(s, i, env), n),
        ended(unary(s, i, env), s, i + 1),
    decreases s.len() - i, 1int,
{
    let j = after_spaces(s, i);
    lemma_after_spaces(s, i);
    if j < s.len() && s[j] == '-' {
        lemma_primary(s, j + 1, env, n);
        lemma_height_push(primary(s, j + 1, env).code, InstrView::Negate, n);
    } else if j < s.len() && s[j] == '+' {
        lemma_primary(s, j + 1, env, n);
    } else {
        lemma_primary(s, i, env, n);
    }
}

proof fn lemma_height_one(i: InstrView, n: int)
    ensures
        height(seq![i], n) == step_height(i, n),
{
    assert(seq![i].drop_last() =~= Seq::<InstrView>::empty());
    assert(height(Seq::<InstrView>::empty(), n) == Some(n));
}

proof fn lemma_closed(
    s: Seq<char>,
    inner: Parsed,
    env: Env,
    open_text: Seq<char>,
    then: Seq<InstrView>,
    fails: bool,
    n: int,
    low: int,
)
    requires
        n >= 0,
        0 <= low,
        balanced(inner, n),
        ended(inner, s, low),
        height(then, n + 1) == Some(n + 1),
        fails ==> then.len() > 0 && then.last() is Fail,
    ensures
        balanced(closed(s, inner, env, open_text, then, fails), n),
        ended(closed(s, inner, env, open_text, then, fails), s, low),
{
    lemma_height_concat(inner.code, then, n);
    let e = InstrView::Fail(
        ConfigErrorView::SyntaxError { file: env.file, line: env.line, message: open_text },
    );
    lemma_height_push(inner.code, e, n);
    match inner.next {
        Some(k) => {
            lemma_after_spaces(s, k);
        },
        None => {},
    }
}

proof fn lemma_primary(s: Seq<char>, i: int, env: Env, n: int)
    requires
        n >= 0,
        0 <= i <= s.len(),
    ensures
        balanced(primary(s, i, env), n),
        ended(primary(s, i, env), s, i + 1),
    decreases s.len() - i, 0int,
{
    let j = after_spaces(s, i);
    lemma_after_spaces(s, i);
    assert(height(Seq::<InstrView>::empty(), n) == Some(n));
    assert(height(Seq::<InstrView>::empty(), n + 1) == Some(n + 1));
    if j < s.len() && s[j] == '(' {
        lemma_additive(s, j + 1, env, n);
        lemma_closed(
            s,
            additive(s, j + 1, env),
            env,
            "missing closing ')'"@,
            Seq::empty(),
            false,
            n,
            i + 1,
        );
    } else if j < s.len() && (text::is_digit(s[j]) || s[j] == '.') {
        lemma_number_end(s, j, j);
        lemma_height_one(InstrView::Number(s.subrange(j, number_end(s, j, j))), n);
    } else if j < s.len() && (is_letter(s[j]) || s[j] == '_') {
        let e = name_end(s, j);
        lemma_name_end(s, j);
        let name = s.subrange(j, e);
        let k = after_spaces(s, e);
        lemma_after_spaces(s, e);
        if k < s.len() && s[k] == '(' {
            lemma_additive(s, k + 1, env, n);
            lemma_height_one(call_step(name), n + 1);
            lemma_closed(
                s,
                additive(s, k + 1, env),
                env,
                "missing closing ')' for function '"@ + name + "'"@,
                seq![call_step(name)],
                function_named(name) is None,
                n,
                i + 1,
            );
        } else {
            lemma_height_one(InstrView::Pi, n);
            lemma_height_one(InstrView::Euler, n);
            match value_of(env.vars, name) {
                Some(v) => {
                    lemma_height_one(InstrView::Value(v), n);
                },
                None => {
                    let f = failed(Seq::empty(), env, "undefined variable '"@ + name + "'"@);
                    lemma_height_push(Seq::empty(), f.code.last(), n);
                },
            }
        }
    } else {
        let f = failed(Seq::empty(), env, "unexpected character at '"@ + rest_of(s, j) + "'"@);
        lemma_height_push(Seq::empty(), f.code.last(), n);
    }
}

/// The steps of an expression never need more numbers than there are; they leave
/// exactly one, or end in an error.
pub proof fn law_expression_is_balanced(s: Seq<char>, env: Env)
    ensures
        height(expression(s, env), 0) is Some,
        height(expression(s, env), 0) == Some(1int) || (expression(s, env).len() > 0 && expression(
            s,
            env,
        ).last() is Fail),
{
    let sum = additive(s, 0, env);
    lemma_additive(s, 0, env, 0);
    match sum.next {
        Some(k) => {
            let f = failed(
                sum.code,
                env,
                "unexpected trailing characters: '"@ + rest_of(s, k) + "'"@,
            );
            lemma_height_push(sum.code, f.code.last(), 0);
        },
        None => {},
    }
}

} // verus!
