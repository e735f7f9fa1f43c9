//! `If:`, `ElseIf:`, `Else:` and `EndIf:` choose between lines.
//!
//! A condition is `true` or `false`, a comparison, or a variable that is not zero;
//! `!` before a condition stands for its opposite. Conditions on the kind of device
//! and on the stage are decided here. What depends on numbers is handed out as a
//! test, and its result handed back.

use vstd::prelude::*;
use crate::host::parse::commands::cmd_expr;
use crate::host::parse::commands::cmd_expr::Variables;
use crate::host::parse::commands::cmd_stage;
use crate::host::parse::commands::cmd_stage::find_stage;
use crate::host::parse::parser::{ConfigError, ConfigErrorView, ProcessingStage};
use crate::text;
use crate::text::{
    concat3, eq, eq_ignore_case, find_chars_from, from_chars, sub_string, to_chars, to_lowercase,
    trim_text,
};

verus! {

// ---------------------------------------------------------------------------
// The stack of conditions
// ---------------------------------------------------------------------------
/// The state of one `If:`.
#[derive(Clone, Copy, Debug, PartialEq, Eq, Structural)]
pub struct CondState {
    /// Whether the lines of the current branch count.
    pub executing: bool,
    /// Whether the condition of a branch held before.
    pub had_true: bool,
}

impl CondState {
    /// The state after an `If:`.
    pub fn new(executing: bool) -> (r: CondState)
        ensures
            r == entered(executing),
    {
        CondState { executing, had_true: executing }
    }
}

/// The state after an `If:`.
pub open spec fn entered(executing: bool) -> CondState {
    CondState { executing, had_true: executing }
}

/// The states of the `If:` that are open, the outermost first.
pub type CondStack = Vec<CondState>;

/// Whether lines are skipped: one of the open branches does not count.
pub open spec fn skipping(stack: Seq<CondState>) -> bool {
    exists|i: int| 0 <= i < stack.len() && !(#[trigger] stack[i]).executing
}

/// Whether lines are skipped.
pub fn is_skipping(stack: &CondStack) -> (r: bool)
    ensures
        r == skipping(stack@),
{
    let mut i: usize = 0;
    while i < stack.len()
        invariant
            i <= stack.len(),
            forall|j: int| 0 <= j < i ==> (#[trigger] stack@[j]).executing,
        decreases stack.len() - i,
    {
        if !stack[i].executing {
            return true;
        }
        i += 1;
    }
    false
}

/// Whether the lines around the innermost `If:` are skipped.
pub open spec fn outer_skipping(stack: Seq<CondState>) -> bool {
    stack.len() > 0 && skipping(stack.drop_last())
}

fn is_skipping_with_outer(stack: &CondStack) -> (r: bool)
    ensures
        r == outer_skipping(stack@),
{
    if stack.len() == 0 {
        return false;
    }
    let mut i: usize = 0;
    let ghost outer = stack@.drop_last();
    while i < stack.len() - 1
        invariant
            stack@.len() > 0,
            i <= stack@.len() - 1,
            outer == stack@.drop_last(),
            forall|j: int| 0 <= j < i ==> (#[trigger] outer[j]).executing,
        decreases stack@.len() - i,
    {
        assert(outer[i as int] == stack@[i as int]);
        if !stack[i].executing {
            return true;
        }
        i += 1;
    }
    false
}

// ---------------------------------------------------------------------------
// Conditions
// ---------------------------------------------------------------------------
/// How two values are compared.
#[derive(Clone, Copy, Debug, PartialEq, Eq, Structural)]
pub enum Relation {
    NotEqual,
    AtLeast,
    AtMost,
    Equal,
    Greater,
    Less,
}

impl Relation {
    /// How the relation is written.
    pub open spec fn text_view(self) -> Seq<char> {
        match self {
            Relation::NotEqual => "!="@,
            Relation::AtLeast => ">="@,
            Relation::AtMost => "<="@,
            Relation::Equal => "=="@,
            Relation::Greater => ">"@,
            Relation::Less => "<"@,
        }
    }

    /// How the relation is written.
    pub fn text(self) -> (r: &'static str)
        ensures
            r@ == self.text_view(),
    {
        match self {
            Relation::NotEqual => "!=",
            Relation::AtLeast => ">=",
            Relation::AtMost => "<=",
            Relation::Equal => "==",
            Relation::Greater => ">",
            Relation::Less => "<",
        }
    }
}

/// A question about numbers.
#[derive(Clone, Debug, PartialEq, Eq)]
pub enum Question {
    /// Whether a number is not zero.
    NonZero { value: u64 },
    /// Whether a number stands in a relation to another: the one that the text
    /// denotes or, where it denotes none, the value of the variable of that name.
    /// Without either it is an error.
    Compare { left: u64, relation: Relation, right: String, variable: Option<u64> },
}

/// The contents of a question.
pub enum QuestionView {
    NonZero { value: u64 },
    Compare { left: u64, relation: Relation, right: Seq<char>, variable: Option<u64> },
}

impl View for Question {
    type V = QuestionView;

    open spec fn view(&self) -> QuestionView {
        match self {
            Question::NonZero { value } => QuestionView::NonZero { value: *value },
            Question::Compare { left, relation, right, variable } => QuestionView::Compare {
                left: *left,
                relation: *relation,
                right: right@,
                variable: *variable,
            },
        }
    }
}

/// A condition on numbers: the answer to a question, or its opposite.
#[derive(Clone, Debug, PartialEq, Eq)]
pub struct NumericTest {
    pub negate: bool,
    pub question: Question,
}

/// The contents of a condition on numbers.
pub struct TestView {
    pub negate: bool,
    pub question: QuestionView,
}

impl View for NumericTest {
    type V = TestView;

    open spec fn view(&self) -> TestView {
        TestView { negate: self.negate, question: self.question@ }
    }
}

/// What a condition comes to.
pub enum Condition {
    Decided(bool),
    Depends(NumericTest),
    Wrong(ConfigError),
}

/// The contents of what a condition comes to.
pub enum ConditionView {
    Decided(bool),
    Depends(TestView),
    Wrong(ConfigErrorView),
}

impl View for Condition {
    type V = ConditionView;

    open spec fn view(&self) -> ConditionView {
        match self {
            Condition::Decided(b) => ConditionView::Decided(*b),
            Condition::Depends(t) => ConditionView::Depends(t@),
            Condition::Wrong(e) => ConditionView::Wrong(e@),
        }
    }
}

/// The opposite of a condition.
pub open spec fn opposite(c: ConditionView) -> ConditionView {
    match c {
        ConditionView::Decided(b) => ConditionView::Decided(!b),
        ConditionView::Depends(t) => ConditionView::Depends(
            TestView { negate: !t.negate, question: t.question },
        ),
        ConditionView::Wrong(e) => ConditionView::Wrong(e),
    }
}

/// What a condition is read in.
pub struct CondEnv {
    pub vars: Map<Seq<char>, u64>,
    pub stage: ProcessingStage,
    pub is_capture: bool,
    pub file: Seq<char>,
    pub line: usize,
}

/// A condition that makes no sense.
pub open spec fn wrong(env: CondEnv, message: Seq<char>) -> ConditionView {
    ConditionView::Wrong(ConfigErrorView::SyntaxError { file: env.file, line: env.line, message })
}

/// What a variable comes to that is not there.
pub open spec fn undefined(env: CondEnv, name: Seq<char>) -> ConditionView {
    wrong(env, "undefined variable '"@ + name + "'"@)
}

/// What a comparison comes to.
pub open spec fn comparison(
    left: Seq<char>,
    relation: Relation,
    right: Seq<char>,
    env: CondEnv,
) -> ConditionView {
    if text::eq_ci(left, "device_type"@) {
        let capture = text::unicode_lower(right) == "capture"@;
        match relation {
            Relation::Equal => ConditionView::Decided(env.is_capture == capture),
            Relation::NotEqual => ConditionView::Decided(env.is_capture != capture),
            _ => wrong(
                env,
                "operator '"@ + relation.text_view() + "' not supported for device_type"@,
            ),
        }
    } else if text::eq_ci(left, "stage"@) {
        match cmd_stage::stage_named(text::unicode_lower(right)) {
            None => wrong(env, "unknown stage '"@ + right + "'"@),
            Some(stage) => match relation {
                Relation::Equal => ConditionView::Decided(env.stage == stage),
                Relation::NotEqual => ConditionView::Decided(env.stage != stage),
                _ => wrong(
                    env,
                    "operator '"@ + relation.text_view() + "' not supported for stage"@,
                ),
            },
        }
    } else {
        match cmd_expr::value_of(env.vars, left) {
            None => undefined(env, left),
            Some(value) => ConditionView::Depends(
                TestView {
                    negate: false,
                    question: QuestionView::Compare {
                        left: value,
                        relation,
                        right,
                        variable: cmd_expr::value_of(env.vars, right),
                    },
                },
            ),
        }
    }
}

/// Where a relation is written in an expression; only `!=` can stand at its start.
pub open spec fn relation_at(e: Seq<char>, relation: Relation) -> Option<int> {
    text::find_from(
        e,
        relation.text_view(),
        if relation == Relation::NotEqual {
            0
        } else {
            1
        },
    )
}

/// The relations in the order in which they are looked for.
pub open spec fn relations() -> Seq<Relation> {
    seq![
        Relation::NotEqual,
        Relation::AtLeast,
        Relation::AtMost,
        Relation::Equal,
        Relation::Greater,
        Relation::Less,
    ]
}

/// What an expression comes to that is no constant and has no sign before it: the
/// comparison by the first of some relations that is written in it, or a variable.
pub open spec fn plain_condition(e: Seq<char>, list: Seq<Relation>, env: CondEnv) -> ConditionView
    decreases list.len(),
{
    if list.len() == 0 {
        match cmd_expr::value_of(env.vars, e) {
            None => undefined(env, e),
            Some(value) => ConditionView::Depends(
                TestView { negate: false, question: QuestionView::NonZero { value } },
            ),
        }
    } else {
        match relation_at(e, list[0]) {
            Some(n) => comparison(
                text::trim(e.subrange(0, n)),
                list[0],
                text::trim(e.subrange(n + list[0].text_view().len(), e.len() as int)),
                env,
            ),
            None => plain_condition(e, list.drop_first(), env),
        }
    }
}

/// What a condition comes to, given without white space around it.
pub open spec fn condition(e: Seq<char>, env: CondEnv) -> ConditionView
    decreases e.len(),
{
    if text::eq_ci(e, "true"@) {
        ConditionView::Decided(true)
    } else if text::eq_ci(e, "false"@) {
        ConditionView::Decided(false)
    } else if e.len() > 0 && e[0] == '!' {
        let inner = text::trim(e.subrange(1, e.len() as int));
        proof {
            text::lemma_trim_len(e.subrange(1, e.len() as int));
        }
        opposite(condition(inner, env))
    } else {
        plain_condition(e, relations(), env)
    }
}

/// Whether a condition, given without white space around it, is one that can be
/// read: after any signs it is not empty, and begins with a character of ASCII
/// unless `!=` is written in it.
pub open spec fn readable(e: Seq<char>) -> bool
    decreases e.len(),
{
    if e.len() > 0 && e[0] == '!' {
        let inner = text::trim(e.subrange(1, e.len() as int));
        proof {
            text::lemma_trim_len(e.subrange(1, e.len() as int));
        }
        readable(inner)
    } else {
        (e.len() > 0 && (e[0] as u32) < 128) || relation_at(e, Relation::NotEqual) is Some
    }
}

fn is_readable_from(v: &[char]) -> (r: bool)
    ensures
        r == readable(v@),
    decreases v@.len(),
{
    if v.len() > 0 && v[0] == '!' {
        let inner = sub_string(v, 1, v.len());
        let t = trim_text(inner.as_str());
        proof {
            text::lemma_trim_len(v@.subrange(1, v@.len() as int));
        }
        let w = to_chars(t.as_str());
        is_readable_from(w.as_slice())
    } else {
        let ne = to_chars("!=");
        (v.len() > 0 && (v[0] as u32) < 128) || find_chars_from(v, ne.as_slice(), 0).is_some()
    }
}

/// Whether a condition is one that can be read.
pub fn is_readable(value: &str) -> (r: bool)
    ensures
        r == readable(text::trim(value@)),
{
    let t = trim_text(value);
    let v = to_chars(t.as_str());
    is_readable_from(v.as_slice())
}

fn negated(c: Condition) -> (r: Condition)
    ensures
        r@ == opposite(c@),
{
    match c {
        Condition::Decided(b) => Condition::Decided(!b),
        Condition::Depends(t) => Condition::Depends(
            NumericTest { negate: !t.negate, question: t.question },
        ),
        Condition::Wrong(e) => Condition::Wrong(e),
    }
}

/// What conditions are read in.
pub struct CondReader<'a> {
    pub vars: &'a Variables,
    pub stage: ProcessingStage,
    pub is_capture: bool,
    pub file: &'a str,
    pub line: usize,
}

impl<'a> CondReader<'a> {
    /// What conditions are read in.
    pub open spec fn env(&self) -> CondEnv {
        CondEnv {
            vars: self.vars@,
            stage: self.stage,
            is_capture: self.is_capture,
            file: self.file@,
            line: self.line,
        }
    }

    fn wrong_text(&self, head: &str, middle: &str, tail: &str) -> (r: Condition)
        ensures
            r@ == wrong(self.env(), head@ + middle@ + tail@),
    {
        let m = concat3(head, middle, tail);
        Condition::Wrong(ConfigError::syntax(self.file, self.line, m.as_str()))
    }

    /// What a comparison comes to.
    pub fn eval_comparison(&self, left: &str, relation: Relation, right: &str) -> (r: Condition)
        ensures
            r@ == comparison(left@, relation, right@, self.env()),
            text::eq_ci(left@, "device_type"@) && right.is_ascii() && relation is Equal ==> r@
                == ConditionView::Decided(self.is_capture == text::eq_ci(right@, "capture"@)),
            text::eq_ci(left@, "device_type"@) && right.is_ascii() && relation is NotEqual ==> r@
                == ConditionView::Decided(self.is_capture != text::eq_ci(right@, "capture"@)),
    {
        proof {
            reveal_strlit("capture");
            assert(text::ascii_lower("capture"@) =~= "capture"@);
        }
        if eq_ignore_case(left, "device_type") {
            let lowered = to_lowercase(right);
            let capture = eq(lowered.as_str(), "capture");
            return match relation {
                Relation::Equal => Condition::Decided(self.is_capture == capture),
                Relation::NotEqual => Condition::Decided(self.is_capture != capture),
                _ => self.wrong_text(
                    "operator '",
                    relation.text(),
                    "' not supported for device_type",
                ),
            };
        }
        if eq_ignore_case(left, "stage") {
            let stage = match find_stage(right) {
                Some(s) => s,
                None => {
                    return self.wrong_text("unknown stage '", right, "'");
                },
            };
            return match relation {
                Relation::Equal => Condition::Decided(self.stage == stage),
                Relation::NotEqual => Condition::Decided(self.stage != stage),
                _ => self.wrong_text("operator '", relation.text(), "' not supported for stage"),
            };
        }
        match self.vars.get(left) {
            None => self.wrong_text("undefined variable '", left, "'"),
            Some(value) => Condition::Depends(
                NumericTest {
                    negate: false,
                    question: Question::Compare {
                        left: value,
                        relation,
                        right: right.to_owned(),
                        variable: self.vars.get(right),
                    },
                },
            ),
        }
    }

    fn find_operator(e: &[char], relation: Relation) -> (r: Option<usize>)
        ensures
            relation_at(e@, relation) == (match r {
                Some(n) => Some(n as int),
                None => None,
            }),
            r matches Some(n) ==> n + relation.text_view().len() <= e@.len(),
    {
        let pat = to_chars(relation.text());
        let start: usize = if relation == Relation::NotEqual {
            0
        } else {
            1
        };
        find_chars_from(e, pat.as_slice(), start)
    }

    fn compare_by(&self, e: &[char], relation: Relation, n: usize) -> (r: Condition)
        requires
            relation_at(e@, relation) == Some(n as int),
            n + relation.text_view().len() <= e@.len(),
        ensures
            r@ == comparison(
                text::trim(e@.subrange(0, n as int)),
                relation,
                text::trim(e@.subrange(n + relation.text_view().len(), e@.len() as int)),
                self.env(),
            ),
    {
        let size: usize = match relation {
            Relation::Greater => 1,
            Relation::Less => 1,
            _ => 2,
        };
        proof {
            reveal_strlit("!=");
            reveal_strlit(">=");
            reveal_strlit("<=");
            reveal_strlit("==");
            reveal_strlit(">");
            reveal_strlit("<");
            assert(size == relation.text_view().len());
        }
        let len: usize = e.len();
        assert(n + size <= len);
        let left = sub_string(e, 0, n);
        let right = sub_string(e, n + size, len);
        let l = trim_text(left.as_str());
        let r = trim_text(right.as_str());
        self.eval_comparison(l.as_str(), relation, r.as_str())
    }

    fn eval_plain(&self, e: &[char]) -> (r: Condition)
        ensures
            r@ == plain_condition(e@, relations(), self.env()),
    {
        let list: [Relation; 6] = [
            Relation::NotEqual,
            Relation::AtLeast,
            Relation::AtMost,
            Relation::Equal,
            Relation::Greater,
            Relation::Less,
        ];
        assert(list@ =~= relations());
        let mut i: usize = 0;
        assert(relations().skip(0) =~= relations());
        while i < 6
            invariant
                i <= 6,
                list@ == relations(),
                plain_condition(e@, relations(), self.env()) == plain_condition(
                    e@,
                    relations().skip(i as int),
                    self.env(),
                ),
            decreases 6 - i,
        {
            let ghost t = relations().skip(i as int);
            let relation = list[i];
            assert(t[0] == relation);
            assert(t.drop_first() =~= relations().skip(i + 1));
            match Self::find_operator(e, relation) {
                Some(n) => {
                    return self.compare_by(e, relation, n);
                },
                None => {},
            }
            i += 1;
        }
        assert(relations().skip(6) =~= Seq::empty());
        let name = from_chars(e);
        match self.vars.get(name.as_str()) {
            None => self.wrong_text("undefined variable '", name.as_str(), "'"),
            Some(value) => Condition::Depends(
                NumericTest { negate: false, question: Question::NonZero { value } },
            ),
        }
    }

    fn eval_from(&self, e: &[char]) -> (r: Condition)
        ensures
            r@ == condition(e@, self.env()),
        decreases e@.len(),
    {
        let whole = from_chars(e);
        if eq_ignore_case(whole.as_str(), "true") {
            return Condition::Decided(true);
        }
        if eq_ignore_case(whole.as_str(), "false") {
            return Condition::Decided(false);
        }
        if e.len() > 0 && e[0] == '!' {
            let inner = sub_string(e, 1, e.len());
            let t = trim_text(inner.as_str());
            proof {
                text::lemma_trim_len(e@.subrange(1, e@.len() as int));
            }
            let v = to_chars(t.as_str());
            let c = self.eval_from(v.as_slice());
            return negated(c);
        }
        self.eval_plain(e)
    }

    /// What a condition comes to.
    pub fn eval_condition(&self, expr: &str) -> (r: Condition)
        requires
            readable(text::trim(expr@)),
        ensures
            r@ == condition(text::trim(expr@), self.env()),
    {
        let t = trim_text(expr);
        let v = to_chars(t.as_str());
        self.eval_from(v.as_slice())
    }
}

/// The error of a variable that is not there.
pub fn undefined_variable(name: &str, file: &str, line: usize) -> (r: ConfigError)
    ensures
        r@ == (ConfigErrorView::SyntaxError {
            file: file@,
            line,
            message: "undefined variable '"@ + name@ + "'"@,
        }),
{
    let m = concat3("undefined variable '", name, "'");
    ConfigError::syntax(file, line, m.as_str())
}

// ---------------------------------------------------------------------------
// The lines
// ---------------------------------------------------------------------------
/// What an `If:` line does to the stack, and what it asks for.
pub open spec fn if_line(stack: Seq<CondState>, c: ConditionView) -> (
    Seq<CondState>,
    Result<Option<TestView>, ConfigErrorView>,
) {
    if skipping(stack) {
        (stack.push(entered(false)), Ok(None))
    } else {
        match c {
            ConditionView::Decided(b) => (stack.push(entered(b)), Ok(None)),
            ConditionView::Depends(t) => (stack, Ok(Some(t))),
            ConditionView::Wrong(e) => (stack, Err(e)),
        }
    }
}

/// The stack with another innermost state.
pub open spec fn with_last(stack: Seq<CondState>, s: CondState) -> Seq<CondState> {
    stack.update(stack.len() - 1, s)
}

/// The innermost state once the condition of an `ElseIf:` is known.
pub open spec fn elseif_state(s: CondState, result: bool) -> CondState {
    CondState { executing: result, had_true: s.had_true || result }
}

/// What an `ElseIf:` line does to the stack, and what it asks for.
pub open spec fn elseif_line(stack: Seq<CondState>, c: ConditionView, file: Seq<char>, line: usize) -> (
    Seq<CondState>,
    Result<Option<TestView>, ConfigErrorView>,
) {
    if stack.len() == 0 {
        (
            stack,
            Err(
                ConfigErrorView::SyntaxError {
                    file,
                    line,
                    message: "ElseIf without matching If"@,
                },
            ),
        )
    } else if outer_skipping(stack) || stack.last().had_true {
        (with_last(stack, CondState { executing: false, ..stack.last() }), Ok(None))
    } else {
        match c {
            ConditionView::Decided(b) => (with_last(stack, elseif_state(stack.last(), b)), Ok(None)),
            ConditionView::Depends(t) => (stack, Ok(Some(t))),
            ConditionView::Wrong(e) => (stack, Err(e)),
        }
    }
}

/// Whether the condition of an `ElseIf:` is looked at.
pub open spec fn elseif_counts(stack: Seq<CondState>) -> bool {
    stack.len() > 0 && !outer_skipping(stack) && !stack.last().had_true
}

/// Whether the condition of an `ElseIf:` is looked at.
pub fn elseif_is_read(stack: &CondStack) -> (r: bool)
    ensures
        r == elseif_counts(stack@),
{
    stack.len() > 0 && !is_skipping_with_outer(stack) && !stack[stack.len() - 1].had_true
}

/// The innermost state after an `Else:`.
pub open spec fn else_state(stack: Seq<CondState>) -> CondState {
    CondState {
        executing: !outer_skipping(stack) && !stack.last().had_true,
        had_true: stack.last().had_true,
    }
}

/// Whether a result is what it is said to be.
pub open spec fn gives(
    r: Result<Option<NumericTest>, ConfigError>,
    v: Result<Option<TestView>, ConfigErrorView>,
) -> bool {
    match v {
        Ok(Some(t)) => r matches Ok(Some(x)) && x@ == t,
        Ok(None) => r matches Ok(None),
        Err(error) => r matches Err(e) && e@ == error,
    }
}

/// Handles an `If:` line. Where its condition depends on numbers, the test is
/// returned, and its result is for `finish_if`.
pub fn handle_if(
    value: &str,
    vars: &Variables,
    stage: ProcessingStage,
    is_capture: bool,
    stack: &mut CondStack,
    file: &str,
    line: usize,
) -> (r: Result<Option<NumericTest>, ConfigError>)
    requires
        !skipping(old(stack)@) ==> readable(text::trim(value@)),
    ensures
        ({
            let env = CondEnv { vars: vars@, stage, is_capture, file: file@, line };
            let (after, result) = if_line(old(stack)@, condition(text::trim(value@), env));
            final(stack)@ == after && gives(r, result)
        }),
{
    if is_skipping(stack) {
        stack.push(CondState::new(false));
        return Ok(None);
    }
    let reader = CondReader { vars, stage, is_capture, file, line };
    match reader.eval_condition(value) {
        Condition::Decided(b) => {
            stack.push(CondState::new(b));
            Ok(None)
        },
        Condition::Depends(t) => Ok(Some(t)),
        Condition::Wrong(e) => Err(e),
    }
}

/// Enters the result of an `If:` line's test.
pub fn finish_if(stack: &mut CondStack, result: bool)
    ensures
        final(stack)@ == old(stack)@.push(entered(result)),
{
    stack.push(CondState::new(result));
}

fn set_last(stack: &mut CondStack, s: CondState)
    requires
        old(stack)@.len() > 0,
    ensures
        final(stack)@ == with_last(old(stack)@, s),
{
    let n: usize = stack.len() - 1;
    stack.set(n, s);
}

/// Handles an `ElseIf:` line. Where its condition depends on numbers, the test is
/// returned, and its result is for `finish_elseif`.
pub fn handle_elseif(
    value: &str,
    vars: &Variables,
    stage: ProcessingStage,
    is_capture: bool,
    stack: &mut CondStack,
    file: &str,
    line: usize,
) -> (r: Result<Option<NumericTest>, ConfigError>)
    requires
        elseif_counts(old(stack)@) ==> readable(text::trim(value@)),
    ensures
        ({
            let env = CondEnv { vars: vars@, stage, is_capture, file: file@, line };
            let (after, result) = elseif_line(
                old(stack)@,
                condition(text::trim(value@), env),
                file@,
                line,
            );
            final(stack)@ == after && gives(r, result)
        }),
{
    let outer = is_skipping_with_outer(stack);
    if stack.len() == 0 {
        return Err(ConfigError::syntax(file, line, "ElseIf without matching If"));
    }
    let state = stack[stack.len() - 1];
    if outer || state.had_true {
        set_last(stack, CondState { executing: false, had_true: state.had_true });
        return Ok(None);
    }
    let reader = CondReader { vars, stage, is_capture, file, line };
    match reader.eval_condition(value) {
        Condition::Decided(b) => {
            set_last(stack, CondState { executing: b, had_true: state.had_true || b });
            Ok(None)
        },
        Condition::Depends(t) => Ok(Some(t)),
        Condition::Wrong(e) => Err(e),
    }
}

/// Enters the result of an `ElseIf:` line's test.
pub fn finish_elseif(stack: &mut CondStack, result: bool)
    requires
        old(stack)@.len() > 0,
    ensures
        final(stack)@ == with_last(old(stack)@, elseif_state(old(stack)@.last(), result)),
{
    let state = stack[stack.len() - 1];
    set_last(stack, CondState { executing: result, had_true: state.had_true || result });
}

/// Handles an `Else:` line: its lines count where no branch before counted.
pub fn handle_else(stack: &mut CondStack, file: &str, line: usize) -> (r: Result<(), ConfigError>)
    ensures
        if old(stack)@.len() == 0 {
            &&& r matches Err(e) && e@ == (ConfigErrorView::SyntaxError {
                file: file@,
                line,
                message: "Else without matching If"@,
            })
            &&& final(stack)@ == old(stack)@
        } else {
            r is Ok && final(stack)@ == with_last(old(stack)@, else_state(old(stack)@))
        },
{
    let outer = is_skipping_with_outer(stack);
    if stack.len() == 0 {
        return Err(ConfigError::syntax(file, line, "Else without matching If"));
    }
    let state = stack[stack.len() - 1];
    set_last(stack, CondState { executing: !outer && !state.had_true, had_true: state.had_true });
    Ok(())
}

/// Handles an `EndIf:` line: the innermost `If:` is closed.
pub fn handle_endif(stack: &mut CondStack, file: &str, line: usize) -> (r: Result<(), ConfigError>)
    ensures
        if old(stack)@.len() == 0 {
            &&& r matches Err(e) && e@ == (ConfigErrorView::SyntaxError {
                file: file@,
                line,
                message: "EndIf without matching If"@,
            })
            &&& final(stack)@ == old(stack)@
        } else {
            r is Ok && final(stack)@ == old(stack)@.drop_last()
        },
{
    match stack.pop() {
        Some(_) => Ok(()),
        None => Err(ConfigError::syntax(file, line, "EndIf without matching If")),
    }
}

// ---------------------------------------------------------------------------
// What the lines promise
// ---------------------------------------------------------------------------
/// Whatever an `If:` comes to, its `EndIf:` leaves the stack as it was.
pub proof fn law_endif_closes_if(stack: Seq<CondState>, c: ConditionView, result: bool)
    ensures
        ({
            let (after, r) = if_line(stack, c);
            let opened = if r matches Ok(Some(_)) {
                after.push(entered(result))
            } else {
                after
            };
            r is Ok ==> opened.drop_last() == stack
        }),
{
    assert(stack.push(entered(false)).drop_last() =~= stack);
    assert(stack.push(entered(true)).drop_last() =~= stack);
    assert(stack.push(entered(result)).drop_last() =~= stack);
}

/// Where the lines around an `If:` are skipped, all of its branches are, and no
/// condition is looked at.
pub proof fn law_outer_false_skips_inner(stack: Seq<CondState>, c: ConditionView)
    requires
        skipping(stack),
    ensures
        if_line(stack, c).1 == Ok::<Option<TestView>, ConfigErrorView>(None),
        skipping(if_line(stack, c).0),
        !elseif_counts(if_line(stack, c).0),
        !else_state(if_line(stack, c).0).executing,
{
    let inner = stack.push(entered(false));
    let k = choose|k: int| 0 <= k < stack.len() && !(#[trigger] stack[k]).executing;
    assert(!inner[k].executing);
    assert(inner.drop_last() =~= stack);
}

/// Once the condition of a branch held, no later branch of the same `If:` counts,
/// and no later condition is looked at.
pub proof fn law_one_branch_counts(
    stack: Seq<CondState>,
    c: ConditionView,
    file: Seq<char>,
    line: usize,
)
    requires
        stack.len() > 0,
        stack.last().had_true,
    ensures
        ({
            let (after, r) = elseif_line(stack, c, file, line);
            &&& r == Ok::<Option<TestView>, ConfigErrorView>(None)
            &&& after.len() == stack.len()
            &&& !after.last().executing
            &&& after.last().had_true
        }),
        !else_state(stack).executing,
        else_state(stack).had_true,
{
}

/// Where no condition held, the lines of the `Else:` count, unless the lines around
/// are skipped.
pub proof fn law_else_counts_otherwise(stack: Seq<CondState>)
    requires
        stack.len() > 0,
        !stack.last().had_true,
    ensures
        else_state(stack).executing == !outer_skipping(stack),
{
}

} // verus!
