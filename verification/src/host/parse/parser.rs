//! Reading configuration files.

use vstd::prelude::*;
use crate::host::chain::{Chain, ChainView, ChannelSnapshot};
use crate::host::parse::commands::cmd_channel;
use crate::host::parse::commands::cmd_cond;
use crate::host::parse::commands::cmd_cond::{
    CondEnv, CondStack, CondState, NumericTest, TestView,
};
use crate::host::parse::commands::cmd_device;
use crate::host::parse::commands::cmd_expr;
use crate::host::parse::commands::cmd_expr::{Assignment, AssignmentView, Env, Variables};
use crate::host::parse::commands::cmd_include;
use crate::host::parse::commands::cmd_stage;
use crate::text;
use crate::text::{
    concat2, concat3, decimal_text, eq, position_of, split_lines, sub_string, to_chars, trim_text,
};

verus! {

/// The part of the processing that a configuration line is for.
#[derive(Clone, Copy, Debug, PartialEq, Eq, Structural)]
pub enum ProcessingStage {
    /// Nothing has been said of it yet.
    Unset,
    PreMix,
    PostMix,
    Capture,
}

impl Default for ProcessingStage {
    fn default() -> (r: ProcessingStage)
        ensures
            r == ProcessingStage::Unset,
    {
        ProcessingStage::Unset
    }
}

/// What is wrong with a configuration.
#[derive(Clone, Debug, PartialEq, Eq)]
pub enum ConfigError {
    /// A file could not be read.
    IoError { path: String, message: String },
    /// A line makes no sense.
    SyntaxError { file: String, line: usize, message: String },
    /// A condition does not hold.
    ConditionFalse,
    /// The rest of the file is not to be read.
    AbortFile,
}

/// The contents of a configuration error.
pub enum ConfigErrorView {
    IoError { path: Seq<char>, message: Seq<char> },
    SyntaxError { file: Seq<char>, line: usize, message: Seq<char> },
    ConditionFalse,
    AbortFile,
}

impl View for ConfigError {
    type V = ConfigErrorView;

    open spec fn view(&self) -> ConfigErrorView {
        match self {
            ConfigError::IoError { path, message } => ConfigErrorView::IoError {
                path: path@,
                message: message@,
            },
            ConfigError::SyntaxError { file, line, message } => ConfigErrorView::SyntaxError {
                file: file@,
                line: *line,
                message: message@,
            },
            ConfigError::ConditionFalse => ConfigErrorView::ConditionFalse,
            ConfigError::AbortFile => ConfigErrorView::AbortFile,
        }
    }
}

/// What is said of a configuration error.
pub open spec fn error_text(e: ConfigErrorView) -> Seq<char> {
    match e {
        ConfigErrorView::IoError { path, message } => "IO error reading '"@ + path + "': "@
            + message,
        ConfigErrorView::SyntaxError { file, line, message } => file + ":"@ + text::decimal(
            line as nat,
        ) + ": "@ + message,
        ConfigErrorView::ConditionFalse => "condition not met"@,
        ConfigErrorView::AbortFile => "aborted by Device: command"@,
    }
}

impl ConfigError {
    /// What is said of the error.
    pub fn message(&self) -> (r: String)
        ensures
            r@ == error_text(self@),
    {
        match self {
            ConfigError::IoError { path, message } => {
                let head = concat3("IO error reading '", path.as_str(), "': ");
                concat2(head.as_str(), message.as_str())
            },
            ConfigError::SyntaxError { file, line, message } => {
                let digits = decimal_text(*line as u64);
                let head = concat3(file.as_str(), ":", digits.as_str());
                concat3(head.as_str(), ": ", message.as_str())
            },
            ConfigError::ConditionFalse => "condition not met".to_owned(),
            ConfigError::AbortFile => "aborted by Device: command".to_owned(),
        }
    }

    /// The same error.
    pub fn copy(&self) -> (r: ConfigError)
        ensures
            r@ == self@,
    {
        match self {
            ConfigError::IoError { path, message } => ConfigError::IoError {
                path: path.clone(),
                message: message.clone(),
            },
            ConfigError::SyntaxError { file, line, message } => ConfigError::SyntaxError {
                file: file.clone(),
                line: *line,
                message: message.clone(),
            },
            ConfigError::ConditionFalse => ConfigError::ConditionFalse,
            ConfigError::AbortFile => ConfigError::AbortFile,
        }
    }

    /// An error of a line.
    pub fn syntax(file: &str, line: usize, message: &str) -> (r: ConfigError)
        ensures
            r@ == (ConfigErrorView::SyntaxError { file: file@, line, message: message@ }),
    {
        ConfigError::SyntaxError { file: file.to_owned(), line, message: message.to_owned() }
    }
}

/// What is known while a configuration file is read.
#[derive(Clone, Debug, PartialEq, Eq)]
pub struct ParseContext {
    /// The channels that filters are applied to.
    pub chain: Chain,
    pub is_capture: bool,
    pub stage: ProcessingStage,
    pub current_file: String,
    pub line_number: usize,
    /// Whether the rest of the file is not to be read.
    pub abort_file: bool,
    pub cond_stack: CondStack,
    pub variables: Variables,
    /// How many files lead to this one.
    pub include_depth: usize,
}

/// The contents of what is known while a configuration file is read.
pub struct ContextView {
    pub chain: ChainView,
    pub is_capture: bool,
    pub stage: ProcessingStage,
    pub current_file: Seq<char>,
    pub line_number: usize,
    pub abort_file: bool,
    pub cond_stack: Seq<CondState>,
    pub variables: Map<Seq<char>, u64>,
    pub include_depth: usize,
}

impl View for ParseContext {
    type V = ContextView;

    open spec fn view(&self) -> ContextView {
        ContextView {
            chain: self.chain@,
            is_capture: self.is_capture,
            stage: self.stage,
            current_file: self.current_file@,
            line_number: self.line_number,
            abort_file: self.abort_file,
            cond_stack: self.cond_stack@,
            variables: self.variables@,
            include_depth: self.include_depth,
        }
    }
}

// ---------------------------------------------------------------------------
// Bytes
// ---------------------------------------------------------------------------
/// The text that bytes encode by UTF-8, with `std::str::from_utf8`: there is one
/// where the bytes are valid UTF-8, and it is the one that they decode to.
#[verifier::external_body]
fn utf8_text(bytes: &[u8]) -> (r: Option<String>)
    ensures
        r is Some == vstd::utf8::valid_utf8(bytes@),
        r matches Some(s) ==> s@ == vstd::utf8::decode_utf8(bytes@),
{
    match std::str::from_utf8(bytes) {
        Ok(s) => Some(s.to_owned()),
        Err(_) => None,
    }
}

/// The bytes of a file without the mark that it is in UTF-8.
pub open spec fn without_mark(bytes: Seq<u8>) -> Seq<u8> {
    if bytes.len() >= 3 && bytes[0] == 0xEF && bytes[1] == 0xBB && bytes[2] == 0xBF {
        bytes.subrange(3, bytes.len() as int)
    } else {
        bytes
    }
}

/// The bytes of a file without the mark that it is in UTF-8.
pub fn strip_mark(bytes: &[u8]) -> (r: Vec<u8>)
    ensures
        r@ == without_mark(bytes@),
{
    let start: usize = if bytes.len() >= 3 && bytes[0] == 0xEF && bytes[1] == 0xBB && bytes[2]
        == 0xBF {
        3
    } else {
        0
    };
    let mut plain: Vec<u8> = Vec::new();
    let mut i: usize = start;
    while i < bytes.len()
        invariant
            start <= i <= bytes@.len(),
            plain@ == bytes@.subrange(start as int, i as int),
        decreases bytes@.len() - i,
    {
        plain.push(bytes[i]);
        i += 1;
        assert(plain@ =~= bytes@.subrange(start as int, i as int));
    }
    assert(plain@ =~= without_mark(bytes@));
    plain
}

/// The text of a configuration file: by UTF-8 or, where its bytes are not valid,
/// the one that the system's code page gives.
pub open spec fn file_text(bytes: Seq<u8>, by_code_page: Seq<char>) -> Seq<char> {
    let b = without_mark(bytes);
    if vstd::utf8::valid_utf8(b) {
        vstd::utf8::decode_utf8(b)
    } else {
        by_code_page
    }
}

/// The text of a configuration file, given the one that the system's code page gives
/// of it.
pub fn decode_config(bytes: &[u8], by_code_page: &str) -> (r: String)
    ensures
        r@ == file_text(bytes@, by_code_page@),
{
    let plain = strip_mark(bytes);
    match utf8_text(plain.as_slice()) {
        Some(s) => s,
        None => by_code_page.to_owned(),
    }
}

// ---------------------------------------------------------------------------
// Lines
// ---------------------------------------------------------------------------
/// The command of a line and its value, which the first colon parts.
pub open spec fn command_and_value(line: Seq<char>) -> (Seq<char>, Seq<char>) {
    let n = text::span_until(line, ':');
    if n < line.len() {
        (
            text::trim(line.subrange(0, n)),
            text::trim(line.subrange(n + 1, line.len() as int)),
        )
    } else {
        (text::trim(line), Seq::empty())
    }
}

/// The command of a line and its value; a line without a colon has none.
pub fn split_command_value(line: &str) -> (r: (String, String))
    ensures
        (r.0@, r.1@) == command_and_value(line@),
{
    let v = to_chars(line);
    assert(v@.subrange(0, v@.len() as int) =~= v@);
    let n = position_of(v.as_slice(), ':', 0);
    if n < v.len() {
        let a = sub_string(v.as_slice(), 0, n);
        let b = sub_string(v.as_slice(), n + 1, v.len());
        (trim_text(a.as_str()), trim_text(b.as_str()))
    } else {
        (trim_text(line), String::new())
    }
}

/// Whether a line, given without white space around it, says nothing: it is empty
/// or a comment.
pub open spec fn is_blank(line: Seq<char>) -> bool {
    line.len() == 0 || line[0] == '#'
}

fn says_nothing(line: &str) -> (r: bool)
    ensures
        r == is_blank(line@),
{
    let v = to_chars(line);
    v.len() == 0 || v[0] == '#'
}

/// An error of a line.
pub open spec fn at_line(c: ContextView, message: Seq<char>) -> ConfigErrorView {
    ConfigErrorView::SyntaxError { file: c.current_file, line: c.line_number, message }
}

/// Reads one line by itself: only `Device:` and `Stage:` do anything.
pub fn parse_line(line: &str, ctx: &mut ParseContext) -> (r: Result<(), ConfigError>)
    ensures
        ({
            let t = text::trim(line@);
            let (command, value) = command_and_value(t);
            let c = old(ctx)@;
            if is_blank(t) {
                r is Ok && *final(ctx) == *old(ctx)
            } else if command == "Device"@ {
                if text::eq_ci(value, "AbortFile"@) {
                    &&& r matches Err(e) && e@ == ConfigErrorView::AbortFile
                    &&& *final(ctx) == (ParseContext { abort_file: true, ..*old(ctx) })
                } else if value.len() == 0 {
                    &&& r matches Err(e) && e@ == at_line(
                        c,
                        "Device: requires a path or 'AbortFile'"@,
                    )
                    &&& *final(ctx) == *old(ctx)
                } else {
                    r is Ok && *final(ctx) == *old(ctx)
                }
            } else if command == "Stage"@ {
                match cmd_stage::stage_named(text::unicode_lower(value)) {
                    Some(stage) => r is Ok && *final(ctx) == (ParseContext { stage, ..*old(ctx) }),
                    None => {
                        &&& r matches Err(e) && e@ == at_line(c, cmd_stage::unknown_stage(value))
                        &&& *final(ctx) == *old(ctx)
                    },
                }
            } else {
                r is Ok && *final(ctx) == *old(ctx)
            }
        }),
{
    let t = trim_text(line);
    if says_nothing(t.as_str()) {
        return Ok(());
    }
    let (command, value) = split_command_value(t.as_str());
    if eq(command.as_str(), "Device") {
        cmd_device::handle(value.as_str(), ctx)
    } else if eq(command.as_str(), "Stage") {
        cmd_stage::handle(value.as_str(), ctx)
    } else {
        Ok(())
    }
}

// ---------------------------------------------------------------------------
// Files
// ---------------------------------------------------------------------------
/// What reading a file needs before it can go on.
#[derive(Clone, Debug, PartialEq, Eq)]
pub enum ParseAction {
    /// Nothing: the file has been read.
    Done,
    /// The result of a test, for an `If:`.
    If(NumericTest),
    /// The result of a test, for an `ElseIf:`.
    ElseIf(NumericTest),
    /// The value of a variable.
    Assign(Assignment),
    /// The reading of another file.
    Include(String),
    /// There is a condition that cannot be read.
    Unreadable,
}

/// The contents of what reading a file needs.
pub enum ActionView {
    Done,
    If(TestView),
    ElseIf(TestView),
    Assign(AssignmentView),
    Include(Seq<char>),
    Unreadable,
}

impl View for ParseAction {
    type V = ActionView;

    open spec fn view(&self) -> ActionView {
        match self {
            ParseAction::Done => ActionView::Done,
            ParseAction::If(t) => ActionView::If(t@),
            ParseAction::ElseIf(t) => ActionView::ElseIf(t@),
            ParseAction::Assign(a) => ActionView::Assign(a@),
            ParseAction::Include(p) => ActionView::Include(p@),
            ParseAction::Unreadable => ActionView::Unreadable,
        }
    }
}

/// What a line comes to: the context after it, and whether the next line follows,
/// something is needed first, or there is an error.
pub struct LineView {
    pub context: ContextView,
    pub result: Result<Option<ActionView>, ConfigErrorView>,
}

/// A line after which the next one follows.
pub open spec fn goes_on(context: ContextView) -> LineView {
    LineView { context, result: Ok(None) }
}

/// A line after which something is needed.
pub open spec fn needs(context: ContextView, action: ActionView) -> LineView {
    LineView { context, result: Ok(Some(action)) }
}

/// A line that is wrong.
pub open spec fn is_wrong(context: ContextView, error: ConfigErrorView) -> LineView {
    LineView { context, result: Err(error) }
}

/// What the conditions of a line are read in.
pub open spec fn cond_env(c: ContextView) -> CondEnv {
    CondEnv {
        vars: c.variables,
        stage: c.stage,
        is_capture: c.is_capture,
        file: c.current_file,
        line: c.line_number,
    }
}

/// A context with another stack.
pub open spec fn with_stack(c: ContextView, stack: Seq<CondState>) -> ContextView {
    ContextView { cond_stack: stack, ..c }
}

/// What a line comes to that opens or closes a branch, where it does.
pub open spec fn branch_line(c: ContextView, command: Seq<char>, value: Seq<char>) -> Option<
    LineView,
> {
    let e = text::trim(value);
    if command == "If"@ {
        if !cmd_cond::skipping(c.cond_stack) && !cmd_cond::readable(e) {
            Some(needs(c, ActionView::Unreadable))
        } else {
            let (stack, r) = cmd_cond::if_line(
                c.cond_stack,
                cmd_cond::condition(e, cond_env(c)),
            );
            Some(
                match r {
                    Ok(None) => goes_on(with_stack(c, stack)),
                    Ok(Some(t)) => needs(with_stack(c, stack), ActionView::If(t)),
                    Err(error) => is_wrong(with_stack(c, stack), error),
                },
            )
        }
    } else if command == "ElseIf"@ {
        if cmd_cond::elseif_counts(c.cond_stack) && !cmd_cond::readable(e) {
            Some(needs(c, ActionView::Unreadable))
        } else {
            let (stack, r) = cmd_cond::elseif_line(
                c.cond_stack,
                cmd_cond::condition(e, cond_env(c)),
                c.current_file,
                c.line_number,
            );
            Some(
                match r {
                    Ok(None) => goes_on(with_stack(c, stack)),
                    Ok(Some(t)) => needs(with_stack(c, stack), ActionView::ElseIf(t)),
                    Err(error) => is_wrong(with_stack(c, stack), error),
                },
            )
        }
    } else if command == "Else"@ {
        Some(
            if c.cond_stack.len() == 0 {
                is_wrong(c, at_line(c, "Else without matching If"@))
            } else {
                goes_on(
                    with_stack(
                        c,
                        cmd_cond::with_last(c.cond_stack, cmd_cond::else_state(c.cond_stack)),
                    ),
                )
            },
        )
    } else if command == "EndIf"@ {
        Some(
            if c.cond_stack.len() == 0 {
                is_wrong(c, at_line(c, "EndIf without matching If"@))
            } else {
                goes_on(with_stack(c, c.cond_stack.drop_last()))
            },
        )
    } else {
        None
    }
}

/// What a line comes to that neither opens nor closes a branch and is not skipped.
pub open spec fn plain_line(c: ContextView, command: Seq<char>, value: Seq<char>) -> LineView {
    if command == "Device"@ {
        if text::eq_ci(value, "AbortFile"@) {
            needs(ContextView { abort_file: true, ..c }, ActionView::Done)
        } else if value.len() == 0 {
            is_wrong(c, at_line(c, "Device: requires a path or 'AbortFile'"@))
        } else {
            goes_on(c)
        }
    } else if command == "Stage"@ {
        match cmd_stage::stage_named(text::unicode_lower(value)) {
            Some(stage) => goes_on(ContextView { stage, ..c }),
            None => is_wrong(c, at_line(c, cmd_stage::unknown_stage(value))),
        }
    } else if command == "Channel"@ {
        match cmd_channel::selected(value, c.chain) {
            Ok(chain) => goes_on(ContextView { chain, ..c }),
            Err(message) => is_wrong(c, at_line(c, message)),
        }
    } else if command == "Eval"@ {
        match cmd_expr::assignment(
            value,
            (Env { vars: c.variables, file: c.current_file, line: c.line_number }),
        ) {
            Ok(a) => needs(c, ActionView::Assign(a)),
            Err(error) => is_wrong(c, error),
        }
    } else if command == "Include"@ {
        match cmd_include::included(value, c.include_depth, c.current_file, c.line_number) {
            Ok(path) => needs(c, ActionView::Include(path)),
            Err(error) => is_wrong(c, error),
        }
    } else {
        goes_on(c)
    }
}

/// What a line comes to.
pub open spec fn line_step(c: ContextView, line: Seq<char>) -> LineView {
    let t = text::trim(line);
    let (command, value) = command_and_value(t);
    if is_blank(t) {
        goes_on(c)
    } else {
        match branch_line(c, command, value) {
            Some(l) => l,
            None => if cmd_cond::skipping(c.cond_stack) {
                goes_on(c)
            } else {
                plain_line(c, command, value)
            },
        }
    }
}

/// What reading a file comes to: the context, the next line, and what is needed
/// then, or an error.
pub struct RunView {
    pub context: ContextView,
    pub next: int,
    pub result: Result<ActionView, ConfigErrorView>,
}

/// What is said when an `If:` is not closed.
pub open spec fn unterminated(levels: nat) -> Seq<char> {
    "unterminated If: block ("@ + text::decimal(levels) + " levels open)"@
}

/// What the end of a file comes to.
pub open spec fn end_of_file(c: ContextView) -> Result<ActionView, ConfigErrorView> {
    if c.cond_stack.len() > 0 {
        Err(at_line(c, unterminated(c.cond_stack.len())))
    } else {
        Ok(ActionView::Done)
    }
}

/// What reading a file from a line on comes to.
pub open spec fn run_from(c: ContextView, lines: Seq<Seq<char>>, next: int) -> RunView
    decreases lines.len() - next,
{
    if 0 <= next < lines.len() {
        let l = line_step(
            ContextView { line_number: (next + 1) as usize, ..c },
            lines[next],
        );
        match l.result {
            Ok(None) => run_from(l.context, lines, next + 1),
            Ok(Some(action)) => RunView { context: l.context, next: next + 1, result: Ok(action) },
            Err(error) => RunView { context: l.context, next: next + 1, result: Err(error) },
        }
    } else {
        RunView { context: c, next, result: end_of_file(c) }
    }
}

/// What is waited for before reading goes on.
#[derive(Clone, Debug, PartialEq, Eq)]
pub enum Pending {
    Nothing,
    If,
    ElseIf,
    Variable(String),
    File,
}

/// The reading of one file.
#[derive(Clone, Debug, PartialEq, Eq)]
pub struct FileParse {
    pub context: ParseContext,
    pub lines: Vec<String>,
    pub next: usize,
    pub pending: Pending,
}

/// What is waited for after something is needed.
pub open spec fn awaits(p: Pending, r: Result<ActionView, ConfigErrorView>) -> bool {
    match r {
        Ok(ActionView::If(_)) => p is If,
        Ok(ActionView::ElseIf(_)) => p is ElseIf,
        Ok(ActionView::Assign(a)) => p matches Pending::Variable(name) && name@ == a.name,
        Ok(ActionView::Include(_)) => p is File,
        _ => p is Nothing,
    }
}

/// What a line came to: nothing that is needed, something that is, or an error.
enum LineResult {
    Next,
    Need(ParseAction),
    Wrong(ConfigError),
}

impl LineResult {
    spec fn is_of(&self, r: Result<Option<ActionView>, ConfigErrorView>) -> bool {
        match r {
            Ok(None) => self is Next,
            Ok(Some(a)) => self matches LineResult::Need(x) && x@ == a,
            Err(error) => self matches LineResult::Wrong(e) && e@ == error,
        }
    }
}

fn read_if(ctx: &mut ParseContext, value: &str) -> (r: LineResult)
    ensures
        branch_line(old(ctx)@, "If"@, value@) matches Some(l) && final(ctx)@ == l.context
            && r.is_of(l.result),
{
    if !cmd_cond::is_skipping(&ctx.cond_stack) && !cmd_cond::is_readable(value) {
        return LineResult::Need(ParseAction::Unreadable);
    }
    match cmd_cond::handle_if(
        value,
        &ctx.variables,
        ctx.stage,
        ctx.is_capture,
        &mut ctx.cond_stack,
        ctx.current_file.as_str(),
        ctx.line_number,
    ) {
        Ok(None) => LineResult::Next,
        Ok(Some(t)) => LineResult::Need(ParseAction::If(t)),
        Err(e) => LineResult::Wrong(e),
    }
}

fn read_elseif(ctx: &mut ParseContext, value: &str) -> (r: LineResult)
    ensures
        branch_line(old(ctx)@, "ElseIf"@, value@) matches Some(l) && final(ctx)@ == l.context
            && r.is_of(l.result),
{
    proof {
        lemma_commands_differ();
    }
    if cmd_cond::elseif_is_read(&ctx.cond_stack) && !cmd_cond::is_readable(value) {
        return LineResult::Need(ParseAction::Unreadable);
    }
    match cmd_cond::handle_elseif(
        value,
        &ctx.variables,
        ctx.stage,
        ctx.is_capture,
        &mut ctx.cond_stack,
        ctx.current_file.as_str(),
        ctx.line_number,
    ) {
        Ok(None) => LineResult::Next,
        Ok(Some(t)) => LineResult::Need(ParseAction::ElseIf(t)),
        Err(e) => LineResult::Wrong(e),
    }
}

proof fn lemma_commands_differ()
    ensures
        "If"@ != "ElseIf"@,
        "If"@ != "Else"@,
        "If"@ != "EndIf"@,
        "ElseIf"@ != "Else"@,
        "ElseIf"@ != "EndIf"@,
        "Else"@ != "EndIf"@,
{
    reveal_strlit("If");
    reveal_strlit("ElseIf");
    reveal_strlit("Else");
    reveal_strlit("EndIf");
    assert("If"@.len() == 2);
    assert("ElseIf"@.len() == 6);
    assert("Else"@.len() == 4);
    assert("EndIf"@.len() == 5);
}

fn read_branch(ctx: &mut ParseContext, command: &str, value: &str) -> (r: Option<LineResult>)
    ensures
        match branch_line(old(ctx)@, command@, value@) {
            Some(l) => r matches Some(x) && final(ctx)@ == l.context && x.is_of(l.result),
            None => r is None && *final(ctx) == *old(ctx),
        },
{
    if eq(command, "If") {
        Some(read_if(ctx, value))
    } else if eq(command, "ElseIf") {
        Some(read_elseif(ctx, value))
    } else if eq(command, "Else") {
        match cmd_cond::handle_else(
            &mut ctx.cond_stack,
            ctx.current_file.as_str(),
            ctx.line_number,
        ) {
            Ok(_) => Some(LineResult::Next),
            Err(e) => Some(LineResult::Wrong(e)),
        }
    } else if eq(command, "EndIf") {
        match cmd_cond::handle_endif(
            &mut ctx.cond_stack,
            ctx.current_file.as_str(),
            ctx.line_number,
        ) {
            Ok(_) => Some(LineResult::Next),
            Err(e) => Some(LineResult::Wrong(e)),
        }
    } else {
        None
    }
}

fn read_plain(ctx: &mut ParseContext, command: &str, value: &str) -> (r: LineResult)
    ensures
        ({
            let l = plain_line(old(ctx)@, command@, value@);
            final(ctx)@ == l.context && r.is_of(l.result)
        }),
{
    if eq(command, "Device") {
        match cmd_device::handle(value, ctx) {
            Ok(_) => LineResult::Next,
            Err(ConfigError::AbortFile) => LineResult::Need(ParseAction::Done),
            Err(e) => LineResult::Wrong(e),
        }
    } else if eq(command, "Stage") {
        match cmd_stage::handle(value, ctx) {
            Ok(_) => LineResult::Next,
            Err(e) => LineResult::Wrong(e),
        }
    } else if eq(command, "Channel") {
        match cmd_channel::handle(value, ctx) {
            Ok(_) => LineResult::Next,
            Err(e) => LineResult::Wrong(e),
        }
    } else if eq(command, "Eval") {
        match cmd_expr::handle(
            value,
            &ctx.variables,
            ctx.current_file.as_str(),
            ctx.line_number,
        ) {
            Ok(a) => LineResult::Need(ParseAction::Assign(a)),
            Err(e) => LineResult::Wrong(e),
        }
    } else if eq(command, "Include") {
        match cmd_include::handle(value, ctx, ctx.include_depth) {
            Ok(path) => LineResult::Need(ParseAction::Include(path)),
            Err(e) => LineResult::Wrong(e),
        }
    } else {
        LineResult::Next
    }
}

fn read_line(ctx: &mut ParseContext, line: &str) -> (r: LineResult)
    ensures
        ({
            let l = line_step(old(ctx)@, line@);
            final(ctx)@ == l.context && r.is_of(l.result)
        }),
{
    let t = trim_text(line);
    if says_nothing(t.as_str()) {
        return LineResult::Next;
    }
    let (command, value) = split_command_value(t.as_str());
    match read_branch(ctx, command.as_str(), value.as_str()) {
        Some(r) => {
            return r;
        },
        None => {},
    }
    if cmd_cond::is_skipping(&ctx.cond_stack) {
        return LineResult::Next;
    }
    read_plain(ctx, command.as_str(), value.as_str())
}

/// The context in which the reading of a file starts.
pub open spec fn fresh_context(
    chain: ChainView,
    is_capture: bool,
    file: Seq<char>,
    depth: usize,
) -> ContextView {
    ContextView {
        chain,
        is_capture,
        stage: ProcessingStage::Unset,
        current_file: file,
        line_number: 0,
        abort_file: false,
        cond_stack: Seq::empty(),
        variables: Map::empty(),
        include_depth: depth,
    }
}

/// Starts the reading of a file to which so many others lead.
pub fn parse_content(content: &str, chain: Chain, is_capture: bool, file: &str, depth: usize) -> (r:
    FileParse)
    ensures
        r.well_formed(),
        r.pending is Nothing,
        r.next == 0,
        text::texts(r.lines@) == text::lines(content@),
        r.context@ == fresh_context(chain@, is_capture, file@, depth),
{
    FileParse {
        context: ParseContext {
            chain,
            is_capture,
            stage: ProcessingStage::Unset,
            current_file: file.to_owned(),
            line_number: 0,
            abort_file: false,
            cond_stack: Vec::new(),
            variables: Variables::new(),
            include_depth: depth,
        },
        lines: split_lines(content),
        next: 0,
        pending: Pending::Nothing,
    }
}

impl FileParse {
    /// Whether the next line is one of the file, or its end, and a branch is open
    /// where the result of its test is waited for.
    pub open spec fn well_formed(&self) -> bool {
        &&& self.next <= self.lines@.len()
        &&& self.pending is ElseIf ==> self.context.cond_stack@.len() > 0
    }

    /// Reads on until something is needed, there is an error, or the file ends.
    pub fn run(&mut self) -> (r: Result<ParseAction, ConfigError>)
        requires
            old(self).well_formed(),
            old(self).pending is Nothing,
        ensures
            ({
                let v = run_from(
                    old(self).context@,
                    text::texts(old(self).lines@),
                    old(self).next as int,
                );
                &&& final(self).context@ == v.context
                &&& final(self).next == v.next
                &&& match v.result {
                    Ok(action) => r matches Ok(a) && a@ == action,
                    Err(error) => r matches Err(e) && e@ == error,
                }
                &&& awaits(final(self).pending, v.result)
            }),
            final(self).lines@ == old(self).lines@,
            final(self).well_formed(),
    {
        let ghost all = text::texts(self.lines@);
        let ghost v = run_from(self.context@, all, self.next as int);
        while self.next < self.lines.len()
            invariant
                self.well_formed(),
                self.pending is Nothing,
                self.lines@ == old(self).lines@,
                all == text::texts(self.lines@),
                v == run_from(self.context@, all, self.next as int),
                v == run_from(
                    old(self).context@,
                    text::texts(old(self).lines@),
                    old(self).next as int,
                ),
            decreases self.lines@.len() - self.next,
        {
            let i: usize = self.next;
            assert(all[i as int] == self.lines@[i as int]@);
            self.context.line_number = i + 1;
            let line = self.lines[i].clone();
            let r = read_line(&mut self.context, line.as_str());
            self.next = i + 1;
            match r {
                LineResult::Next => {},
                LineResult::Need(action) => {
                    self.pending = match &action {
                        ParseAction::If(_) => Pending::If,
                        ParseAction::ElseIf(_) => Pending::ElseIf,
                        ParseAction::Assign(a) => Pending::Variable(a.name.clone()),
                        ParseAction::Include(_) => Pending::File,
                        _ => Pending::Nothing,
                    };
                    return Ok(action);
                },
                LineResult::Wrong(e) => {
                    return Err(e);
                },
            }
        }
        if self.context.cond_stack.len() > 0 {
            let digits = decimal_text(self.context.cond_stack.len() as u64);
            let m = concat3("unterminated If: block (", digits.as_str(), " levels open)");
            return Err(
                ConfigError::syntax(
                    self.context.current_file.as_str(),
                    self.context.line_number,
                    m.as_str(),
                ),
            );
        }
        Ok(ParseAction::Done)
    }

    /// Enters the result of a test that was needed.
    pub fn answer(&mut self, result: bool)
        requires
            old(self).well_formed(),
            old(self).pending is If || old(self).pending is ElseIf,
        ensures
            final(self).well_formed(),
            final(self).pending is Nothing,
            final(self).lines@ == old(self).lines@,
            final(self).next == old(self).next,
            final(self).context@ == with_stack(
                old(self).context@,
                if old(self).pending is If {
                    old(self).context.cond_stack@.push(cmd_cond::entered(result))
                } else {
                    cmd_cond::with_last(
                        old(self).context.cond_stack@,
                        cmd_cond::elseif_state(old(self).context.cond_stack@.last(), result),
                    )
                },
            ),
    {
        match &self.pending {
            Pending::If => {
                cmd_cond::finish_if(&mut self.context.cond_stack, result);
            },
            _ => {
                cmd_cond::finish_elseif(&mut self.context.cond_stack, result);
            },
        }
        self.pending = Pending::Nothing;
    }

    /// Enters the value of a variable that was needed.
    pub fn assign(&mut self, bits: u64)
        requires
            old(self).well_formed(),
            old(self).pending is Variable,
        ensures
            final(self).well_formed(),
            final(self).pending is Nothing,
            final(self).lines@ == old(self).lines@,
            final(self).next == old(self).next,
            final(self).context@ == (ContextView {
                variables: old(self).context@.variables.insert(
                    old(self).pending->Variable_0@,
                    bits,
                ),
                ..old(self).context@
            }),
    {
        match &self.pending {
            Pending::Variable(name) => {
                self.context.variables.set(name.as_str(), bits);
            },
            _ => {},
        }
        self.pending = Pending::Nothing;
    }

    /// Goes on after another file was read: with the channels that it left.
    pub fn returned(&mut self, chain: Chain)
        requires
            old(self).well_formed(),
            old(self).pending is File,
        ensures
            final(self).well_formed(),
            final(self).pending is Nothing,
            final(self).lines@ == old(self).lines@,
            final(self).next == old(self).next,
            final(self).context@ == (ContextView { chain: chain@, ..old(self).context@ }),
    {
        self.context.chain = chain;
        self.pending = Pending::Nothing;
    }
}

/// Starts the reading of a configuration, given the text that the system's code page
/// gives of its bytes: the selection of channels is kept, to be restored when the
/// configuration has been read.
pub fn parse_config_file(
    bytes: &[u8],
    by_code_page: &str,
    chain: Chain,
    is_capture: bool,
    file: &str,
) -> (r: (FileParse, ChannelSnapshot))
    ensures
        r.0.well_formed(),
        r.0.pending is Nothing,
        r.0.next == 0,
        text::texts(r.0.lines@) == text::lines(file_text(bytes@, by_code_page@)),
        r.0.context@ == fresh_context(chain@, is_capture, file@, 0),
        text::texts(r.1.names@) == chain@.current_names,
{
    let content = decode_config(bytes, by_code_page);
    let snapshot = chain.save_channel_snapshot();
    (parse_content(content.as_str(), chain, is_capture, file, 0), snapshot)
}

/// Ends the reading of a configuration: the channels that were selected before are
/// selected again.
pub fn finish_config_file(chain: &mut Chain, snapshot: ChannelSnapshot)
    ensures
        final(chain)@ == (ChainView {
            current_names: text::texts(snapshot.names@),
            ..old(chain)@
        }),
{
    chain.restore_channel_snapshot(snapshot);
}

// ---------------------------------------------------------------------------
// What reading promises
// ---------------------------------------------------------------------------
/// A line that is skipped changes nothing.
pub proof fn law_skipped_lines_do_nothing(c: ContextView, line: Seq<char>)
    requires
        cmd_cond::skipping(c.cond_stack),
        branch_line(
            c,
            command_and_value(text::trim(line)).0,
            command_and_value(text::trim(line)).1,
        ) is None,
    ensures
        line_step(c, line) == goes_on(c),
{
}

/// No other file is read from one to which as many lead as may.
pub proof fn law_depth_is_bounded(c: ContextView, line: Seq<char>)
    ensures
        line_step(c, line).result matches Ok(Some(ActionView::Include(_))) ==> c.include_depth
            < cmd_include::MAX_INCLUDE_DEPTH,
{
}

/// A file that ends has closed every `If:`, unless the rest of it was not to be
/// read.
pub proof fn law_read_files_are_closed(c: ContextView, lines: Seq<Seq<char>>, next: int)
    requires
        0 <= next <= lines.len(),
    ensures
        run_from(c, lines, next).result == Ok::<ActionView, ConfigErrorView>(ActionView::Done) ==> {
            ||| run_from(c, lines, next).context.abort_file
            ||| run_from(c, lines, next).context.cond_stack.len() == 0
        },
    decreases lines.len() - next,
{
    if next < lines.len() {
        let c1 = ContextView { line_number: (next + 1) as usize, ..c };
        let l = line_step(c1, lines[next]);
        if l.result == Ok::<Option<ActionView>, ConfigErrorView>(None) {
            law_read_files_are_closed(l.context, lines, next + 1);
        }
    }
}

/// The first colon of a line parts its command from its value, both without white space
/// around them; a line without a colon is all command.
pub proof fn law_command_and_value(command: Seq<char>, value: Seq<char>)
    requires
        forall|i: int| 0 <= i < command.len() ==> (#[trigger] command[i]) != ':',
    ensures
        command_and_value(command + seq![':'] + value) == (text::trim(command), text::trim(value)),
        command_and_value(command) == (text::trim(command), Seq::<char>::empty()),
{
    let line = command + seq![':'] + value;
    let n = command.len() as int;
    assert forall|j: int| 0 <= j < n implies line[j] != ':' by {
        assert(line[j] == command[j]);
    }
    text::lemma_span_until(line, ':', n);
    assert(line.subrange(0, n) =~= command);
    assert(line.subrange(n + 1, line.len() as int) =~= value);
    text::lemma_span_until(command, ':', n);
}

/// The names of the commands are told apart.
proof fn lemma_plain_commands_differ()
    ensures
        "Device"@ != "Stage"@ && "Device"@ != "Channel"@ && "Device"@ != "Eval"@ && "Device"@
            != "Include"@,
        "Stage"@ != "Channel"@ && "Stage"@ != "Eval"@ && "Stage"@ != "Include"@,
        "Channel"@ != "Eval"@ && "Channel"@ != "Include"@ && "Eval"@ != "Include"@,
{
    reveal_strlit("Device");
    reveal_strlit("Stage");
    reveal_strlit("Channel");
    reveal_strlit("Eval");
    reveal_strlit("Include");
    assert("Device"@.len() == 6 && "Stage"@.len() == 5 && "Channel"@.len() == 7 && "Eval"@.len()
        == 4 && "Include"@.len() == 7);
    assert("Channel"@[0] == 'C' && "Include"@[0] == 'I');
}

/// What a line is for changes nothing else: a stage line the stage alone, a channel line
/// the channels alone, and the others neither, nor the variables, the file or the depth.
pub proof fn law_lines_change_their_own(c: ContextView, value: Seq<char>, command: Seq<char>)
    ensures
        ({
            let after = plain_line(c, command, value).context;
            &&& after.variables == c.variables && after.cond_stack == c.cond_stack
            &&& after.current_file == c.current_file && after.line_number == c.line_number
            &&& after.include_depth == c.include_depth && after.is_capture == c.is_capture
            &&& command != "Stage"@ ==> after.stage == c.stage
            &&& command != "Channel"@ ==> after.chain == c.chain
            &&& command != "Device"@ ==> after.abort_file == c.abort_file
        }),
{
}

/// What the lines that are not skipped do: `Stage:` with the name of a stage sets it,
/// `Channel:` selects, `Eval:` asks for a value, `Include:` asks for a file,
/// `Device: AbortFile` ends the file, and lines with other commands do nothing.
pub proof fn law_plain_lines(c: ContextView, value: Seq<char>, command: Seq<char>)
    ensures
        cmd_stage::stage_named(text::unicode_lower(value)) matches Some(s) ==> plain_line(
            c,
            "Stage"@,
            value,
        ).context.stage == s && plain_line(c, "Stage"@, value).result is Ok,
        cmd_stage::stage_named(text::unicode_lower(value)) is None ==> plain_line(
            c,
            "Stage"@,
            value,
        ).result is Err,
        cmd_channel::selected(value, c.chain) matches Ok(chain) ==> plain_line(
            c,
            "Channel"@,
            value,
        ) == goes_on(ContextView { chain, ..c }),
        text::eq_ci(value, "AbortFile"@) ==> plain_line(c, "Device"@, value).result == Ok::<
            Option<ActionView>,
            ConfigErrorView,
        >(Some(ActionView::Done)),
        !text::eq_ci(value, "AbortFile"@) && value.len() > 0 ==> plain_line(c, "Device"@, value)
            == goes_on(c),
        cmd_expr::assignment(
            value,
            (Env { vars: c.variables, file: c.current_file, line: c.line_number }),
        ) matches Ok(a) ==> plain_line(c, "Eval"@, value) == needs(c, ActionView::Assign(a)),
        value.len() > 0 && c.include_depth < 16 ==> plain_line(c, "Include"@, value) == needs(
            c,
            ActionView::Include(cmd_include::resolved_path(c.current_file, value)),
        ),
        command != "Device"@ && command != "Stage"@ && command != "Channel"@ && command != "Eval"@
            && command != "Include"@ ==> plain_line(c, command, value) == goes_on(c),
{
    lemma_plain_commands_differ();
}

/// A comment and an empty line do nothing, even between branches.
pub proof fn law_comments_do_nothing(c: ContextView, line: Seq<char>)
    requires
        text::trim(line).len() == 0 || text::trim(line)[0] == '#',
    ensures
        line_step(c, line) == goes_on(c),
{
}

/// A file is read line by line: what is read from a line on is what that line does, and
/// then what is read from the next.
pub proof fn law_lines_in_order(c: ContextView, lines: Seq<Seq<char>>, next: int)
    requires
        0 <= next < lines.len(),
    ensures
        ({
            let l = line_step(
                ContextView { line_number: (next + 1) as usize, ..c },
                lines[next],
            );
            let run = run_from(c, lines, next);
            &&& l.result == Ok::<Option<ActionView>, ConfigErrorView>(None) ==> run == run_from(
                l.context,
                lines,
                next + 1,
            )
            &&& l.result is Err ==> run.result is Err && run.context == l.context
            &&& l.result matches Ok(Some(a)) ==> run.result == Ok::<ActionView, ConfigErrorView>(a)
                && run.next == next + 1
        }),
        run_from(c, lines, lines.len() as int).result is Err <==> c.cond_stack.len() > 0,
{
}

} // verus!
