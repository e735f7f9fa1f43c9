//! What conditions promise.
//!
//! The laws here speak of a condition as it is written, and of the device, the stage
//! and the variables that it is read for.

use vstd::prelude::*;
use crate::host::parse::commands::cmd_cond;
use crate::host::parse::commands::cmd_cond::{
    CondEnv, CondState, ConditionView, QuestionView, Relation, TestView,
};
use crate::host::parse::commands::cmd_expr;
use crate::host::parse::commands::cmd_stage;
use crate::host::parse::parser::{ConfigErrorView, ProcessingStage};
use crate::text;

verus! {

// ---------------------------------------------------------------------------
// Comparisons as they are written
// ---------------------------------------------------------------------------
/// How a relation is written.
pub open spec fn sign(relation: Relation) -> Seq<char> {
    match relation {
        Relation::NotEqual => seq!['!', '='],
        Relation::AtLeast => seq!['>', '='],
        Relation::AtMost => seq!['<', '='],
        Relation::Equal => seq!['=', '='],
        Relation::Greater => seq!['>'],
        Relation::Less => seq!['<'],
    }
}

/// Whether a character can be part of a relation.
pub open spec fn is_mark(c: char) -> bool {
    c == '!' || c == '=' || c == '<' || c == '>'
}

/// Whether no relation is written in a text.
pub open spec fn is_plain(s: Seq<char>) -> bool {
    forall|i: int| 0 <= i < s.len() ==> !is_mark(#[trigger] s[i])
}

proof fn lemma_sign(relation: Relation)
    ensures
        relation.text_view() == sign(relation),
{
    reveal_strlit("!=");
    reveal_strlit(">=");
    reveal_strlit("<=");
    reveal_strlit("==");
    reveal_strlit(">");
    reveal_strlit("<");
    assert(relation.text_view() =~= sign(relation));
}

proof fn lemma_not_found(s: Seq<char>, pat: Seq<char>, i: int)
    requires
        0 <= i,
        forall|k: int| i <= k ==> !text::occurs_at(s, pat, k),
    ensures
        text::find_from(s, pat, i) is None,
    decreases s.len() - i + 1,
{
    if i + pat.len() <= s.len() {
        lemma_not_found(s, pat, i + 1);
    }
}

proof fn lemma_found_at(s: Seq<char>, pat: Seq<char>, i: int, n: int)
    requires
        0 <= i <= n,
        text::occurs_at(s, pat, n),
        forall|k: int| i <= k < n ==> !text::occurs_at(s, pat, k),
    ensures
        text::find_from(s, pat, i) == Some(n),
    decreases n - i,
{
    if i < n {
        lemma_found_at(s, pat, i + 1, n);
    }
}

/// Where a relation stands between two plain texts, another is found there only where
/// it begins the same.
proof fn lemma_occurs(left: Seq<char>, relation: Relation, right: Seq<char>, other: Relation, k: int)
    requires
        is_plain(left),
        is_plain(right),
        text::occurs_at(left + sign(relation) + right, sign(other), k),
    ensures
        left.len() <= k < left.len() + sign(relation).len(),
        k == left.len() ==> sign(relation)[0] == sign(other)[0] && sign(other).len() <= sign(
            relation,
        ).len() && (sign(other).len() == 2 ==> sign(relation)[1] == sign(other)[1]),
        k == left.len() + 1 ==> sign(other).len() == 1 && sign(relation)[1] == sign(other)[0],
{
    let e = left + sign(relation) + right;
    let w = sign(other);
    assert(e.subrange(k, k + w.len())[0] == w[0]);
    assert(e[k] == w[0]);
    assert(is_mark(e[k]));
    if k < left.len() {
        assert(e[k] == left[k]);
    } else if k >= left.len() + sign(relation).len() {
        assert(e[k] == right[k - left.len() - sign(relation).len()]);
    } else if w.len() == 2 {
        assert(e.subrange(k, k + w.len())[1] == w[1]);
        assert(e[k + 1] == w[1]);
        assert(is_mark(e[k + 1]));
        if k + 1 >= left.len() + sign(relation).len() {
            assert(e[k + 1] == right[k + 1 - left.len() - sign(relation).len()]);
        }
    }
}

proof fn lemma_relation_found(left: Seq<char>, relation: Relation, right: Seq<char>)
    requires
        left.len() > 0,
        is_plain(left),
        is_plain(right),
    ensures
        cmd_cond::relation_at(left + sign(relation) + right, relation) == Some(left.len() as int),
{
    let e = left + sign(relation) + right;
    let n = left.len() as int;
    lemma_sign(relation);
    let w = sign(relation);
    assert(e.subrange(n, n + w.len()) =~= w);
    let start: int = if relation == Relation::NotEqual {
        0
    } else {
        1
    };
    assert forall|k: int| start <= k < n implies !text::occurs_at(e, w, k) by {
        if text::occurs_at(e, w, k) {
            lemma_occurs(left, relation, right, relation, k);
        }
    }
    lemma_found_at(e, w, start, n);
}

/// Whether a relation is looked for before another.
pub open spec fn is_before(other: Relation, relation: Relation) -> bool {
    match relation {
        Relation::NotEqual => false,
        Relation::AtLeast => other is NotEqual,
        Relation::AtMost => other is NotEqual || other is AtLeast,
        Relation::Equal => other is NotEqual || other is AtLeast || other is AtMost,
        Relation::Greater => !(other is Greater) && !(other is Less),
        Relation::Less => !(other is Less),
    }
}

proof fn lemma_relation_absent(
    left: Seq<char>,
    relation: Relation,
    right: Seq<char>,
    other: Relation,
)
    requires
        is_plain(left),
        is_plain(right),
        is_before(other, relation),
    ensures
        cmd_cond::relation_at(left + sign(relation) + right, other) is None,
{
    let e = left + sign(relation) + right;
    lemma_sign(other);
    let start: int = if other == Relation::NotEqual {
        0
    } else {
        1
    };
    assert forall|k: int| start <= k implies !text::occurs_at(e, sign(other), k) by {
        if text::occurs_at(e, sign(other), k) {
            lemma_occurs(left, relation, right, other, k);
        }
    }
    lemma_not_found(e, sign(other), start);
}

proof fn lemma_skip(e: Seq<char>, i: int, env: CondEnv)
    requires
        0 <= i < 6,
        cmd_cond::relation_at(e, cmd_cond::relations()[i]) is None,
    ensures
        cmd_cond::plain_condition(e, cmd_cond::relations().skip(i), env)
            == cmd_cond::plain_condition(e, cmd_cond::relations().skip(i + 1), env),
{
    let t = cmd_cond::relations().skip(i);
    assert(t[0] == cmd_cond::relations()[i]);
    assert(t.drop_first() =~= cmd_cond::relations().skip(i + 1));
}

/// The place of a relation in the order in which they are looked for.
spec fn order(relation: Relation) -> int {
    match relation {
        Relation::NotEqual => 0,
        Relation::AtLeast => 1,
        Relation::AtMost => 2,
        Relation::Equal => 3,
        Relation::Greater => 4,
        Relation::Less => 5,
    }
}

proof fn lemma_skips_to(
    left: Seq<char>,
    relation: Relation,
    right: Seq<char>,
    env: CondEnv,
    i: int,
)
    requires
        is_plain(left),
        is_plain(right),
        0 <= i <= order(relation),
    ensures
        ({
            let e = left + sign(relation) + right;
            cmd_cond::plain_condition(e, cmd_cond::relations(), env) == cmd_cond::plain_condition(
                e,
                cmd_cond::relations().skip(i),
                env,
            )
        }),
    decreases i,
{
    let e = left + sign(relation) + right;
    if i == 0 {
        assert(cmd_cond::relations().skip(0) =~= cmd_cond::relations());
    } else {
        lemma_skips_to(left, relation, right, env, i - 1);
        let other = cmd_cond::relations()[i - 1];
        assert(is_before(other, relation));
        lemma_relation_absent(left, relation, right, other);
        lemma_skip(e, i - 1, env);
    }
}

/// What holds a mark is no constant.
proof fn lemma_no_constant(e: Seq<char>, n: int)
    requires
        0 <= n < e.len(),
        is_mark(e[n]),
    ensures
        !text::eq_ci(e, "true"@),
        !text::eq_ci(e, "false"@),
{
    reveal_strlit("true");
    reveal_strlit("false");
    let a = text::ascii_lower(e);
    let t = text::ascii_lower("true"@);
    let f = text::ascii_lower("false"@);
    assert(a[n] == e[n]);
    if n < t.len() {
        assert(t[n] == "true"@[n]);
    }
    if n < f.len() {
        assert(f[n] == "false"@[n]);
    }
}

/// A comparison between two plain texts is read as such.
proof fn lemma_comparison(left: Seq<char>, relation: Relation, right: Seq<char>, env: CondEnv)
    requires
        left.len() > 0,
        is_plain(left),
        is_plain(right),
    ensures
        cmd_cond::condition(left + sign(relation) + right, env) == cmd_cond::comparison(
            text::trim(left),
            relation,
            text::trim(right),
            env,
        ),
{
    let e = left + sign(relation) + right;
    let n = left.len() as int;
    assert(e[n] == sign(relation)[0]);
    lemma_no_constant(e, n);
    assert(e[0] == left[0]);
    let k = order(relation);
    lemma_skips_to(left, relation, right, env, k);
    let t = cmd_cond::relations().skip(k);
    assert(t[0] == relation);
    lemma_relation_found(left, relation, right);
    lemma_sign(relation);
    assert(e.subrange(0, n) =~= left);
    assert(e.subrange(n + sign(relation).len(), e.len() as int) =~= right);
}

// ---------------------------------------------------------------------------
// Devices and stages
// ---------------------------------------------------------------------------
proof fn lemma_not_empty(left: Seq<char>, w: Seq<char>)
    requires
        text::eq_ci(text::trim(left), w),
        w.len() > 0,
    ensures
        left.len() > 0,
{
    assert(text::ascii_lower(text::trim(left)).len() == text::ascii_lower(w).len());
    text::lemma_trim_len(left);
}

/// `device_type == capture` holds exactly on capture devices, and `device_type ==` any
/// other kind, `render` among them, exactly on the others; with `!=` each is the
/// opposite. The name is told without regard to case.
pub proof fn law_device_type(left: Seq<char>, right: Seq<char>, env: CondEnv)
    requires
        is_plain(left),
        is_plain(right),
        text::eq_ci(text::trim(left), "device_type"@),
    ensures
        text::unicode_lower(text::trim(right)) == "capture"@ ==> {
            &&& cmd_cond::condition(left + seq!['=', '='] + right, env) == ConditionView::Decided(
                env.is_capture,
            )
            &&& cmd_cond::condition(left + seq!['!', '='] + right, env) == ConditionView::Decided(
                !env.is_capture,
            )
        },
        text::unicode_lower(text::trim(right)) != "capture"@ ==> {
            &&& cmd_cond::condition(left + seq!['=', '='] + right, env) == ConditionView::Decided(
                !env.is_capture,
            )
            &&& cmd_cond::condition(left + seq!['!', '='] + right, env) == ConditionView::Decided(
                env.is_capture,
            )
        },
{
    reveal_strlit("device_type");
    lemma_not_empty(left, "device_type"@);
    lemma_comparison(left, Relation::Equal, right, env);
    lemma_comparison(left, Relation::NotEqual, right, env);
}

/// `device_type == render` is the opposite of `device_type == capture`, on every device.
pub proof fn law_render_is_not_capture(
    left: Seq<char>,
    capture: Seq<char>,
    render: Seq<char>,
    env: CondEnv,
)
    requires
        is_plain(left),
        is_plain(capture),
        is_plain(render),
        text::eq_ci(text::trim(left), "device_type"@),
        text::unicode_lower(text::trim(capture)) == "capture"@,
        text::unicode_lower(text::trim(render)) == "render"@,
    ensures
        cmd_cond::condition(left + seq!['=', '='] + capture, env) == ConditionView::Decided(
            env.is_capture,
        ),
        cmd_cond::condition(left + seq!['=', '='] + render, env) == ConditionView::Decided(
            !env.is_capture,
        ),
{
    reveal_strlit("capture");
    reveal_strlit("render");
    assert("capture"@.len() == 7 && "render"@.len() == 6);
    law_device_type(left, capture, env);
    law_device_type(left, render, env);
}

/// A condition on the kind of device comes to opposite answers on a capture device and
/// on another.
pub proof fn law_devices_differ(
    left: Seq<char>,
    right: Seq<char>,
    capture: CondEnv,
    other: CondEnv,
)
    requires
        is_plain(left),
        is_plain(right),
        text::eq_ci(text::trim(left), "device_type"@),
        capture.is_capture,
        !other.is_capture,
    ensures
        cmd_cond::condition(left + seq!['=', '='] + right, capture) != cmd_cond::condition(
            left + seq!['=', '='] + right,
            other,
        ),
        cmd_cond::condition(left + seq!['!', '='] + right, capture) != cmd_cond::condition(
            left + seq!['!', '='] + right,
            other,
        ),
{
    law_device_type(left, right, capture);
    law_device_type(left, right, other);
}

/// Kinds of devices can be told apart, but not ordered.
pub proof fn law_device_types_have_no_order(
    left: Seq<char>,
    relation: Relation,
    right: Seq<char>,
    env: CondEnv,
)
    requires
        is_plain(left),
        is_plain(right),
        text::eq_ci(text::trim(left), "device_type"@),
        !(relation is Equal) && !(relation is NotEqual),
    ensures
        cmd_cond::condition(left + sign(relation) + right, env) == ConditionView::Wrong(
            ConfigErrorView::SyntaxError {
                file: env.file,
                line: env.line,
                message: "operator '"@ + sign(relation) + "' not supported for device_type"@,
            },
        ),
{
    reveal_strlit("device_type");
    lemma_not_empty(left, "device_type"@);
    lemma_comparison(left, relation, right, env);
    lemma_sign(relation);
}

/// Whether a name in lower case is that of a stage.
pub open spec fn names_stage(name: Seq<char>, stage: ProcessingStage) -> bool {
    match stage {
        ProcessingStage::PreMix => name == "premix"@ || name == "pre-mix"@ || name == "pre_mix"@,
        ProcessingStage::PostMix => name == "postmix"@ || name == "post-mix"@ || name
            == "post_mix"@,
        ProcessingStage::Capture => name == "capture"@,
        ProcessingStage::Unset => false,
    }
}

/// A name is that of one stage at most: the one that it is found to be of.
pub proof fn law_stage_names(name: Seq<char>, stage: ProcessingStage)
    ensures
        cmd_stage::stage_named(name) == Some(stage) <==> names_stage(name, stage),
{
    reveal_strlit("premix");
    reveal_strlit("pre-mix");
    reveal_strlit("pre_mix");
    reveal_strlit("postmix");
    reveal_strlit("post-mix");
    reveal_strlit("post_mix");
    reveal_strlit("capture");
    let c = name[1];
    assert("premix"@[1] == 'r' && "pre-mix"@[1] == 'r' && "pre_mix"@[1] == 'r');
    assert("postmix"@[1] == 'o' && "post-mix"@[1] == 'o' && "post_mix"@[1] == 'o');
    assert("capture"@[1] == 'a');
}

/// `stage ==` the name of a stage holds exactly in that stage, and `stage !=` it
/// exactly in the others.
pub proof fn law_stage(left: Seq<char>, right: Seq<char>, stage: ProcessingStage, env: CondEnv)
    requires
        is_plain(left),
        is_plain(right),
        text::eq_ci(text::trim(left), "stage"@),
        names_stage(text::unicode_lower(text::trim(right)), stage),
    ensures
        cmd_cond::condition(left + seq!['=', '='] + right, env) == ConditionView::Decided(
            env.stage == stage,
        ),
        cmd_cond::condition(left + seq!['!', '='] + right, env) == ConditionView::Decided(
            env.stage != stage,
        ),
{
    reveal_strlit("stage");
    lemma_not_empty(left, "stage"@);
    lemma_no_device(text::trim(left));
    lemma_comparison(left, Relation::Equal, right, env);
    lemma_comparison(left, Relation::NotEqual, right, env);
    law_stage_names(text::unicode_lower(text::trim(right)), stage);
}

proof fn lemma_no_device(s: Seq<char>)
    requires
        text::eq_ci(s, "stage"@),
    ensures
        !text::eq_ci(s, "device_type"@),
{
    reveal_strlit("stage");
    reveal_strlit("device_type");
    assert(text::ascii_lower("stage"@).len() == 5);
    assert(text::ascii_lower("device_type"@).len() == 11);
}

// ---------------------------------------------------------------------------
// Numbers, constants and opposites
// ---------------------------------------------------------------------------
/// A comparison of a variable asks whether its value stands in the relation that is
/// written to what is written right of it; without such a variable it is an error.
pub proof fn law_variables_are_compared(
    left: Seq<char>,
    relation: Relation,
    right: Seq<char>,
    env: CondEnv,
)
    requires
        left.len() > 0,
        is_plain(left),
        is_plain(right),
        !text::eq_ci(text::trim(left), "device_type"@),
        !text::eq_ci(text::trim(left), "stage"@),
    ensures
        cmd_cond::condition(left + sign(relation) + right, env) == if env.vars.dom().contains(
            text::trim(left),
        ) {
            ConditionView::Depends(
                TestView {
                    negate: false,
                    question: QuestionView::Compare {
                        left: env.vars[text::trim(left)],
                        relation,
                        right: text::trim(right),
                        variable: if env.vars.dom().contains(text::trim(right)) {
                            Some(env.vars[text::trim(right)])
                        } else {
                            None
                        },
                    },
                },
            )
        } else {
            ConditionView::Wrong(
                ConfigErrorView::SyntaxError {
                    file: env.file,
                    line: env.line,
                    message: "undefined variable '"@ + text::trim(left) + "'"@,
                },
            )
        },
{
    lemma_comparison(left, relation, right, env);
}

/// A single name asks whether the variable is not zero; without such a variable it is
/// an error.
pub proof fn law_names_are_not_zero(name: Seq<char>, env: CondEnv)
    requires
        is_plain(name),
        !text::eq_ci(name, "true"@),
        !text::eq_ci(name, "false"@),
    ensures
        cmd_cond::condition(name, env) == if env.vars.dom().contains(name) {
            ConditionView::Depends(
                TestView { negate: false, question: QuestionView::NonZero { value: env.vars[name] } },
            )
        } else {
            ConditionView::Wrong(
                ConfigErrorView::SyntaxError {
                    file: env.file,
                    line: env.line,
                    message: "undefined variable '"@ + name + "'"@,
                },
            )
        },
{
    lemma_none_at(name, env, 6);
    assert(cmd_cond::relations().skip(6) =~= Seq::empty());
}

proof fn lemma_none_at(name: Seq<char>, env: CondEnv, i: int)
    requires
        is_plain(name),
        0 <= i <= 6,
    ensures
        cmd_cond::plain_condition(name, cmd_cond::relations(), env) == cmd_cond::plain_condition(
            name,
            cmd_cond::relations().skip(i),
            env,
        ),
    decreases i,
{
    if i == 0 {
        assert(cmd_cond::relations().skip(0) =~= cmd_cond::relations());
    } else {
        lemma_none_at(name, env, i - 1);
        let other = cmd_cond::relations()[i - 1];
        lemma_sign(other);
        let w = sign(other);
        let start: int = if other == Relation::NotEqual {
            0
        } else {
            1
        };
        assert forall|k: int| start <= k implies !text::occurs_at(name, w, k) by {
            if text::occurs_at(name, w, k) {
                assert(name.subrange(k, k + w.len())[0] == w[0]);
                assert(is_mark(name[k]));
            }
        }
        lemma_not_found(name, w, start);
        lemma_skip(name, i - 1, env);
    }
}

/// `true` holds and `false` does not, in whatever case.
pub proof fn law_constants(e: Seq<char>, env: CondEnv)
    ensures
        text::eq_ci(e, "true"@) ==> cmd_cond::condition(e, env) == ConditionView::Decided(true),
        text::eq_ci(e, "false"@) ==> cmd_cond::condition(e, env) == ConditionView::Decided(false),
{
    reveal_strlit("true");
    reveal_strlit("false");
    assert(text::ascii_lower("true"@).len() == 4);
    assert(text::ascii_lower("false"@).len() == 5);
}

/// `!` before a condition turns its answer round, whether it is decided or depends on
/// numbers; an error stays one.
pub proof fn law_opposite(e: Seq<char>, env: CondEnv)
    ensures
        ({
            let c = cmd_cond::condition(seq!['!'] + e, env);
            match cmd_cond::condition(text::trim(e), env) {
                ConditionView::Decided(b) => c == ConditionView::Decided(!b),
                ConditionView::Depends(t) => c matches ConditionView::Depends(u) && u.negate
                    != t.negate && u.question == t.question,
                ConditionView::Wrong(error) => c == ConditionView::Wrong(error),
            }
        }),
{
    let w = seq!['!'] + e;
    lemma_no_constant(w, 0);
    assert(w.subrange(1, w.len() as int) =~= e);
}

// ---------------------------------------------------------------------------
// The lines
// ---------------------------------------------------------------------------
proof fn lemma_skipping_push(stack: Seq<CondState>, s: CondState)
    ensures
        cmd_cond::skipping(stack.push(s)) == (cmd_cond::skipping(stack) || !s.executing),
{
    let t = stack.push(s);
    if cmd_cond::skipping(stack) {
        let k = choose|k: int| 0 <= k < stack.len() && !(#[trigger] stack[k]).executing;
        assert(!t[k].executing);
    }
    if !s.executing {
        assert(!t[stack.len() as int].executing);
    }
    if cmd_cond::skipping(t) {
        let k = choose|k: int| 0 <= k < t.len() && !(#[trigger] t[k]).executing;
        if k < stack.len() {
            assert(!stack[k].executing);
        }
    }
}

/// Of the branches of an `If:`, an `ElseIf:` and an `Else:` whose conditions are decided,
/// exactly one counts, the first whose condition holds or else the last, unless the lines
/// around them are skipped; after the `EndIf:` lines count as they did before.
pub proof fn law_first_true_branch_counts(
    stack: Seq<CondState>,
    first: bool,
    second: bool,
    file: Seq<char>,
    line: usize,
)
    requires
        !cmd_cond::skipping(stack),
    ensures
        ({
            let a = cmd_cond::if_line(stack, ConditionView::Decided(first)).0;
            let b = cmd_cond::elseif_line(a, ConditionView::Decided(second), file, line).0;
            let c = cmd_cond::with_last(b, cmd_cond::else_state(b));
            &&& cmd_cond::skipping(a) == !first
            &&& cmd_cond::skipping(b) == (first || !second)
            &&& cmd_cond::skipping(c) == (first || second)
            &&& c.drop_last() == stack
        }),
{
    let a = cmd_cond::if_line(stack, ConditionView::Decided(first)).0;
    let b = cmd_cond::elseif_line(a, ConditionView::Decided(second), file, line).0;
    let c = cmd_cond::with_last(b, cmd_cond::else_state(b));
    lemma_skipping_push(stack, a.last());
    assert(a =~= stack.push(a.last()));
    assert(a.drop_last() =~= stack);
    lemma_skipping_push(stack, b.last());
    assert(b =~= stack.push(b.last()));
    assert(b.drop_last() =~= stack);
    lemma_skipping_push(stack, c.last());
    assert(c =~= stack.push(c.last()));
    assert(c.drop_last() =~= stack);
}

/// The lines of a branch whose condition depends on numbers count exactly where its
/// test held.
pub proof fn law_tests_decide_branches(stack: Seq<CondState>, t: TestView, result: bool)
    requires
        !cmd_cond::skipping(stack),
    ensures
        cmd_cond::if_line(stack, ConditionView::Depends(t)).0 == stack,
        cmd_cond::if_line(stack, ConditionView::Depends(t)).1 == Ok::<
            Option<TestView>,
            ConfigErrorView,
        >(Some(t)),
        cmd_cond::skipping(stack.push(cmd_cond::entered(result))) == !result,
{
    lemma_skipping_push(stack, cmd_cond::entered(result));
}

/// The lines of an `ElseIf:` that is looked at count exactly where its condition holds.
pub proof fn law_elseif_decides(
    stack: Seq<CondState>,
    result: bool,
    file: Seq<char>,
    line: usize,
)
    requires
        cmd_cond::elseif_counts(stack),
    ensures
        ({
            let after = cmd_cond::elseif_line(stack, ConditionView::Decided(result), file, line).0;
            &&& cmd_cond::skipping(after) == !result
            &&& after.last().had_true == result
            &&& after == cmd_cond::with_last(
                stack,
                cmd_cond::elseif_state(stack.last(), result),
            )
        }),
{
    let outer = stack.drop_last();
    let after = cmd_cond::elseif_line(stack, ConditionView::Decided(result), file, line).0;
    assert(after =~= outer.push(after.last()));
    lemma_skipping_push(outer, after.last());
}

// ---------------------------------------------------------------------------
// Assignments
// ---------------------------------------------------------------------------
/// An `Eval:` line sets the variable named left of the first equals sign to the value
/// of the expression right of it.
pub proof fn law_assignment(name: Seq<char>, expr: Seq<char>, env: cmd_expr::Env)
    requires
        forall|i: int| 0 <= i < name.len() ==> name[i] != '=',
    ensures
        ({
            let line = name + seq!['='] + expr;
            let r = cmd_expr::assignment(line, env);
            if text::trim(name).len() == 0 || text::trim(expr).len() == 0 {
                r is Err
            } else {
                r matches Ok(a) && a.name == text::trim(name) && a.program == cmd_expr::expression(
                    text::trim(expr),
                    env,
                )
            }
        }),
        cmd_expr::assignment(name, env) is Err,
{
    let line = name + seq!['='] + expr;
    let n = name.len() as int;
    assert forall|j: int| 0 <= j < n implies line[j] != '=' by {
        assert(line[j] == name[j]);
    }
    text::lemma_span_until(line, '=', n);
    assert(line.subrange(0, n) =~= name);
    assert(line.subrange(n + 1, line.len() as int) =~= expr);
    text::lemma_span_until(name, '=', n);
}

} // verus!
