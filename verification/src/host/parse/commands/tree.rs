//! Expressions as trees.
//!
//! A tree says what an expression means: a sum adds to or takes from what stands to
//! its left, a product multiplies or divides what stands to its left, products bind
//! tighter than sums, and signs tighter than products. The laws here say that an
//! expression is read as the tree that it was written from, and that its value is the
//! value of that tree.

use vstd::prelude::*;
use crate::host::parse::commands::cmd_expr;
use crate::host::parse::commands::cmd_expr::{Env, InstrView, MathFunction, Parsed};
use crate::host::parse::commands::machine;
use crate::host::parse::commands::machine::{MachineView, StepView, WorkView};
use crate::host::parse::parser::ConfigErrorView;
use crate::text;

verus! {

// ---------------------------------------------------------------------------
// Trees
// ---------------------------------------------------------------------------
/// An expression. A gap is a number of spaces before a part.
pub enum Tree {
    Number { gap: nat, digits: Seq<char> },
    Variable { gap: nat, name: Seq<char> },
    Pi { gap: nat, name: Seq<char> },
    Euler { gap: nat, name: Seq<char> },
    Bracket { gap: nat, inner: Box<Tree>, end: nat },
    Call { gap: nat, f: MathFunction, name: Seq<char>, before: nat, inner: Box<Tree>, end: nat },
    Signed { gap: nat, minus: bool, inner: Box<Tree> },
    Product { left: Box<Tree>, gap: nat, times: bool, right: Box<Tree> },
    Sum { left: Box<Tree>, gap: nat, plus: bool, right: Box<Tree> },
}

/// How tightly an expression holds together: what needs no brackets anywhere, what has
/// a sign, products, sums.
pub open spec fn rank(t: Tree) -> int {
    match t {
        Tree::Sum { .. } => 3,
        Tree::Product { .. } => 2,
        Tree::Signed { .. } => 1,
        _ => 0,
    }
}

/// Whether a function has a name.
pub open spec fn has_name(f: MathFunction, name: Seq<char>) -> bool {
    match f {
        MathFunction::Abs => name == "abs"@,
        MathFunction::Sqrt => name == "sqrt"@,
        MathFunction::Sin => name == "sin"@,
        MathFunction::Cos => name == "cos"@,
        MathFunction::Tan => name == "tan"@,
        MathFunction::Log => name == "log"@ || name == "ln"@,
        MathFunction::Log10 => name == "log10"@,
        MathFunction::Floor => name == "floor"@,
        MathFunction::Ceil => name == "ceil"@,
        MathFunction::Round => name == "round"@,
        MathFunction::DbToLinear => name == "db_to_linear"@,
        MathFunction::LinearToDb => name == "linear_to_db"@,
    }
}

/// Whether a text can stand for a number: digits, points, and exponents with or without
/// a minus, beginning with a digit or a point and not ending in an exponent's letter.
pub open spec fn is_numeral(s: Seq<char>) -> bool {
    &&& s.len() > 0
    &&& ('0' <= s[0] <= '9') || s[0] == '.'
    &&& s.last() != 'e' && s.last() != 'E'
    &&& forall|k: int|
        0 <= k < s.len() ==> {
            let c = #[trigger] s[k];
            ('0' <= c <= '9') || c == '.' || c == 'e' || c == 'E' || (c == '-' && k > 0 && (s[k - 1]
                == 'e' || s[k - 1] == 'E'))
        }
}

/// Whether a text can be a name: letters, digits and underscores, not beginning with a
/// digit.
pub open spec fn is_identifier(s: Seq<char>) -> bool {
    &&& s.len() > 0
    &&& !('0' <= s[0] <= '9')
    &&& forall|k: int|
        0 <= k < s.len() ==> {
            let c = #[trigger] s[k];
            ('a' <= c <= 'z') || ('A' <= c <= 'Z') || ('0' <= c <= '9') || c == '_'
        }
}

/// Whether an expression is written without brackets that it would need: what stands
/// right of an operator holds together more tightly than it, what stands left of it no
/// less tightly; and whether its names are known.
pub open spec fn well_written(t: Tree, vars: Map<Seq<char>, u64>) -> bool
    decreases t,
{
    match t {
        Tree::Number { gap, digits } => is_numeral(digits),
        Tree::Variable { gap, name } => {
            &&& is_identifier(name)
            &&& vars.dom().contains(name)
            &&& name != "pi"@ && name != "PI"@ && name != "e"@ && name != "E"@
        },
        Tree::Pi { gap, name } => name == "pi"@ || name == "PI"@,
        Tree::Euler { gap, name } => name == "e"@ || name == "E"@,
        Tree::Bracket { gap, inner, end } => well_written(*inner, vars),
        Tree::Call { gap, f, name, before, inner, end } => has_name(f, name) && well_written(
            *inner,
            vars,
        ),
        Tree::Signed { gap, minus, inner } => rank(*inner) == 0 && well_written(*inner, vars),
        Tree::Product { left, gap, times, right } => {
            &&& rank(*left) <= 2 && rank(*right) <= 1
            &&& well_written(*left, vars) && well_written(*right, vars)
        },
        Tree::Sum { left, gap, plus, right } => {
            &&& rank(*right) <= 2
            &&& well_written(*left, vars) && well_written(*right, vars)
        },
    }
}

/// So many spaces.
pub open spec fn spaces(n: nat) -> Seq<char> {
    Seq::new(n, |i: int| ' ')
}

/// How an expression is written.
pub open spec fn written(t: Tree) -> Seq<char>
    decreases t,
{
    match t {
        Tree::Number { gap, digits } => spaces(gap) + digits,
        Tree::Variable { gap, name } => spaces(gap) + name,
        Tree::Pi { gap, name } => spaces(gap) + name,
        Tree::Euler { gap, name } => spaces(gap) + name,
        Tree::Bracket { gap, inner, end } => spaces(gap) + seq!['('] + written(*inner) + spaces(end)
            + seq![')'],
        Tree::Call { gap, f, name, before, inner, end } => spaces(gap) + name + (spaces(before)
            + seq!['('] + written(*inner) + spaces(end) + seq![')']),
        Tree::Signed { gap, minus, inner } => spaces(gap) + seq![
            if minus {
                '-'
            } else {
                '+'
            },
        ] + written(*inner),
        Tree::Product { left, gap, times, right } => written(*left) + (spaces(gap) + seq![
            if times {
                '*'
            } else {
                '/'
            },
        ]) + written(*right),
        Tree::Sum { left, gap, plus, right } => written(*left) + (spaces(gap) + seq![
            if plus {
                '+'
            } else {
                '-'
            },
        ]) + written(*right),
    }
}

/// The steps that compute the value of an expression: those of its parts, from left to
/// right, and then its operation.
pub open spec fn steps(t: Tree, vars: Map<Seq<char>, u64>) -> Seq<InstrView>
    decreases t,
{
    match t {
        Tree::Number { gap, digits } => seq![InstrView::Number(digits)],
        Tree::Variable { gap, name } => seq![InstrView::Value(vars[name])],
        Tree::Pi { gap, name } => seq![InstrView::Pi],
        Tree::Euler { gap, name } => seq![InstrView::Euler],
        Tree::Bracket { gap, inner, end } => steps(*inner, vars),
        Tree::Call { gap, f, name, before, inner, end } => steps(*inner, vars).push(
            InstrView::Call(f),
        ),
        Tree::Signed { gap, minus, inner } => if minus {
            steps(*inner, vars).push(InstrView::Negate)
        } else {
            steps(*inner, vars)
        },
        Tree::Product { left, gap, times, right } => (steps(*left, vars) + steps(*right, vars)).push(
            if times {
                InstrView::Times
            } else {
                InstrView::Divide
            },
        ),
        Tree::Sum { left, gap, plus, right } => (steps(*left, vars) + steps(*right, vars)).push(
            if plus {
                InstrView::Plus
            } else {
                InstrView::Minus
            },
        ),
    }
}

// ---------------------------------------------------------------------------
// Places
// ---------------------------------------------------------------------------
/// Whether a text stands at a place in another.
pub open spec fn stands(s: Seq<char>, i: int, w: Seq<char>) -> bool {
    0 <= i && i + w.len() <= s.len() && s.subrange(i, i + w.len()) == w
}

proof fn lemma_stands_concat(s: Seq<char>, i: int, a: Seq<char>, b: Seq<char>)
    requires
        stands(s, i, a + b),
    ensures
        stands(s, i, a),
        stands(s, i + a.len(), b),
{
    let w = a + b;
    assert(s.subrange(i, i + a.len()) =~= a) by {
        assert forall|k: int| 0 <= k < a.len() implies s[i + k] == a[k] by {
            assert(s.subrange(i, i + w.len())[k] == w[k]);
        }
    }
    assert(s.subrange(i + a.len(), i + w.len()) =~= b) by {
        assert forall|k: int| 0 <= k < b.len() implies s[i + a.len() + k] == b[k] by {
            assert(s.subrange(i, i + w.len())[a.len() + k] == w[a.len() + k]);
        }
    }
}

proof fn lemma_stands_at(s: Seq<char>, i: int, w: Seq<char>, k: int)
    requires
        stands(s, i, w),
        0 <= k < w.len(),
    ensures
        s[i + k] == w[k],
{
    assert(s.subrange(i, i + w.len())[k] == w[k]);
}

proof fn lemma_gap(s: Seq<char>, i: int, n: nat)
    requires
        stands(s, i, spaces(n)),
    ensures
        cmd_expr::after_spaces(s, i) == cmd_expr::after_spaces(s, i + n),
    decreases n,
{
    if n > 0 {
        let m = (n - 1) as nat;
        lemma_stands_at(s, i, spaces(n), 0);
        assert(spaces(n) =~= seq![' '] + spaces(m));
        lemma_stands_concat(s, i, seq![' '], spaces(m));
        lemma_gap(s, i + 1, m);
    }
}

/// Whether an operator, a closing bracket or the end comes next.
pub open spec fn ends(s: Seq<char>, e: int) -> bool {
    let z = cmd_expr::after_spaces(s, e);
    z >= s.len() || s[z] == '+' || s[z] == '-' || s[z] == '*' || s[z] == '/' || s[z] == ')'
}

/// Whether no product goes on.
pub open spec fn no_product(s: Seq<char>, e: int) -> bool {
    let z = cmd_expr::after_spaces(s, e);
    z >= s.len() || (s[z] != '*' && s[z] != '/')
}

/// Whether no sum goes on.
pub open spec fn no_sum(s: Seq<char>, e: int) -> bool {
    let z = cmd_expr::after_spaces(s, e);
    z >= s.len() || (s[z] != '+' && s[z] != '-')
}

proof fn lemma_number_ends(s: Seq<char>, i: int, w: Seq<char>, k: int)
    requires
        stands(s, i, w),
        is_numeral(w),
        ends(s, i + w.len()),
        0 <= k <= w.len(),
    ensures
        cmd_expr::number_end(s, i, i + k) == i + w.len(),
    decreases w.len() - k,
{
    if k < w.len() {
        lemma_stands_at(s, i, w, k);
        if k > 0 {
            lemma_stands_at(s, i, w, k - 1);
        }
        lemma_number_ends(s, i, w, k + 1);
    } else {
        lemma_stands_at(s, i, w, w.len() - 1);
    }
}

proof fn lemma_name_ends(s: Seq<char>, i: int, w: Seq<char>, k: int)
    requires
        stands(s, i, w),
        forall|j: int| 0 <= j < w.len() ==> cmd_expr::in_name(#[trigger] w[j]),
        i + w.len() < s.len() ==> !cmd_expr::in_name(s[i + w.len()]),
        0 <= k <= w.len(),
    ensures
        cmd_expr::name_end(s, i + k) == i + w.len(),
    decreases w.len() - k,
{
    if k < w.len() {
        lemma_stands_at(s, i, w, k);
        lemma_name_ends(s, i, w, k + 1);
    }
}

/// Names of functions are names, and each belongs to one function.
proof fn lemma_function_names(f: MathFunction, name: Seq<char>)
    requires
        has_name(f, name),
    ensures
        is_identifier(name),
        cmd_expr::function_named(name) == Some(f),
{
    reveal_strlit("abs");
    reveal_strlit("sqrt");
    reveal_strlit("sin");
    reveal_strlit("cos");
    reveal_strlit("tan");
    reveal_strlit("log");
    reveal_strlit("ln");
    reveal_strlit("log10");
    reveal_strlit("floor");
    reveal_strlit("ceil");
    reveal_strlit("round");
    reveal_strlit("db_to_linear");
    reveal_strlit("linear_to_db");
    let k0 = name[0];
    let k1 = name[1];
    match f {
        MathFunction::Cos => {
            assert(name[2] == 's');
        },
        MathFunction::Ceil => {
            assert(name[2] == 'i');
        },
        _ => {},
    }
}

proof fn lemma_constant_names()
    ensures
        is_identifier("pi"@),
        is_identifier("PI"@),
        is_identifier("e"@),
        is_identifier("E"@),
        "e"@ != "pi"@ && "e"@ != "PI"@ && "E"@ != "pi"@ && "E"@ != "PI"@,
{
    reveal_strlit("pi");
    reveal_strlit("PI");
    reveal_strlit("e");
    reveal_strlit("E");
    assert("e"@.len() == 1 && "pi"@.len() == 2 && "PI"@.len() == 2 && "E"@.len() == 1);
}

proof fn lemma_identifier(w: Seq<char>)
    requires
        is_identifier(w),
    ensures
        forall|j: int| 0 <= j < w.len() ==> cmd_expr::in_name(#[trigger] w[j]),
        cmd_expr::is_letter(w[0]) || w[0] == '_',
        !text::is_digit(w[0]) && w[0] != '.' && w[0] != '(' && w[0] != '+' && w[0] != '-' && w[0]
            != ' ',
{
    assert(cmd_expr::in_name(w[0]));
}

// ---------------------------------------------------------------------------
// Reading
// ---------------------------------------------------------------------------
/// Whether a part was read as the tree written at a place, up to its end or the spaces
/// behind it.
pub open spec fn is_read(
    p: Parsed,
    t: Tree,
    vars: Map<Seq<char>, u64>,
    s: Seq<char>,
    i: int,
) -> bool {
    let e = i + written(t).len();
    let z = cmd_expr::after_spaces(s, e);
    &&& p.code == steps(t, vars)
    &&& p.next matches Some(k) && e <= k <= z && i < k <= s.len() && cmd_expr::after_spaces(s, k) == z
}

proof fn lemma_between(s: Seq<char>, e: int, k: int)
    requires
        0 <= e <= k <= cmd_expr::after_spaces(s, e),
        e <= s.len(),
    ensures
        cmd_expr::after_spaces(s, k) == cmd_expr::after_spaces(s, e),
        k <= cmd_expr::after_spaces(s, e) <= s.len(),
    decreases k - e,
{
    cmd_expr::lemma_after_spaces(s, e);
    if e < k {
        lemma_between(s, e + 1, k);
    }
}

proof fn lemma_sum_goes_on(s: Seq<char>, a: int, b: int, before: Seq<InstrView>, env: Env)
    requires
        0 <= a <= b <= cmd_expr::after_spaces(s, a),
        a <= s.len(),
    ensures
        cmd_expr::additive_rest(s, a, before, env) == cmd_expr::additive_rest(s, b, before, env),
{
    lemma_between(s, a, b);
    let j = cmd_expr::after_spaces(s, a);
    if j < s.len() {
        cmd_expr::lemma_multiplicative(s, j + 1, env, 0);
    }
}

proof fn lemma_product_goes_on(s: Seq<char>, a: int, b: int, before: Seq<InstrView>, env: Env)
    requires
        0 <= a <= b <= cmd_expr::after_spaces(s, a),
        a <= s.len(),
    ensures
        cmd_expr::multiplicative_rest(s, a, before, env) == cmd_expr::multiplicative_rest(
            s,
            b,
            before,
            env,
        ),
{
    lemma_between(s, a, b);
    let j = cmd_expr::after_spaces(s, a);
    if j < s.len() {
        cmd_expr::lemma_unary(s, j + 1, env, 0);
    }
}

/// A name that stands at a place, and no open bracket behind it, is read as a name.
proof fn lemma_reads_name(s: Seq<char>, i: int, gap: nat, name: Seq<char>, env: Env)
    requires
        is_identifier(name),
        stands(s, i, spaces(gap) + name),
        ends(s, i + gap + name.len()),
    ensures
        cmd_expr::after_spaces(s, i) == i + gap,
        i + gap < s.len(),
        s[i + gap] == name[0],
        cmd_expr::primary(s, i, env) == cmd_expr::named(
            name,
            cmd_expr::after_spaces(s, i + gap + name.len()),
            env,
        ),
{
    let j = i + gap;
    let e = j + name.len();
    lemma_stands_concat(s, i, spaces(gap), name);
    lemma_gap(s, i, gap);
    lemma_identifier(name);
    lemma_stands_at(s, j, name, 0);
    assert(cmd_expr::after_spaces(s, j) == j);
    cmd_expr::lemma_after_spaces(s, e);
    lemma_name_ends(s, j, name, 0);
    assert(s.subrange(j, e) == name);
}

/// The text of an expression is not empty.
proof fn lemma_written_len(t: Tree, vars: Map<Seq<char>, u64>)
    requires
        well_written(t, vars),
    ensures
        written(t).len() > 0,
    decreases t,
{
    match t {
        Tree::Number { gap, digits } => {},
        Tree::Variable { gap, name } => {},
        Tree::Pi { gap, name } => {
            lemma_constant_names();
        },
        Tree::Euler { gap, name } => {
            lemma_constant_names();
        },
        Tree::Bracket { gap, inner, end } => {},
        Tree::Call { gap, f, name, before, inner, end } => {},
        Tree::Signed { gap, minus, inner } => {},
        Tree::Product { left, gap, times, right } => {},
        Tree::Sum { left, gap, plus, right } => {},
    }
}

/// Where a bracket is closed behind an expression, the expression ends there.
proof fn lemma_closing(s: Seq<char>, e: int, end: nat)
    requires
        stands(s, e, spaces(end) + seq![')']),
    ensures
        cmd_expr::after_spaces(s, e) == e + end,
        e + end < s.len(),
        s[e + end] == ')',
        ends(s, e),
        no_product(s, e),
        no_sum(s, e),
{
    lemma_stands_concat(s, e, spaces(end), seq![')']);
    lemma_gap(s, e, end);
    lemma_stands_at(s, e + end, seq![')'], 0);
    assert(cmd_expr::after_spaces(s, e + end) == e + end);
}

/// The inside of a bracket is read up to the bracket that closes it.
proof fn lemma_reads_inside(t: Tree, s: Seq<char>, i: int, end: nat, env: Env)
    requires
        well_written(t, env.vars),
        stands(s, i, written(t) + (spaces(end) + seq![')'])),
    ensures
        ({
            let p = cmd_expr::additive(s, i, env);
            &&& p.code == steps(t, env.vars)
            &&& p.next == Some(i + written(t).len() + end)
            &&& i + written(t).len() + end < s.len()
            &&& s[i + written(t).len() + end] == ')'
            &&& cmd_expr::next_is(s, i + written(t).len() + end, ')')
            &&& cmd_expr::after_spaces(s, i + written(t).len() + end) == i + written(t).len() + end
        }),
    decreases t, 4int,
{
    let e = i + written(t).len();
    lemma_stands_concat(s, i, written(t), spaces(end) + seq![')']);
    lemma_closing(s, e, end);
    lemma_reads_sum(t, s, i, env);
    assert(cmd_expr::after_spaces(s, e + end) == e + end);
}

proof fn lemma_reads_primary(t: Tree, s: Seq<char>, i: int, env: Env)
    requires
        well_written(t, env.vars),
        rank(t) == 0,
        stands(s, i, written(t)),
        ends(s, i + written(t).len()),
    ensures
        is_read(cmd_expr::primary(s, i, env), t, env.vars, s, i),
        ({
            let j = cmd_expr::after_spaces(s, i);
            i <= j < s.len() && s[j] != '+' && s[j] != '-'
        }),
    decreases t, 0int,
{
    let e = i + written(t).len();
    cmd_expr::lemma_after_spaces(s, i);
    cmd_expr::lemma_after_spaces(s, e);
    let z = cmd_expr::after_spaces(s, e);
    lemma_between(s, e, z);
    match t {
        Tree::Number { gap, digits } => {
            let j = i + gap;
            lemma_stands_concat(s, i, spaces(gap), digits);
            lemma_gap(s, i, gap);
            lemma_stands_at(s, j, digits, 0);
            assert(cmd_expr::after_spaces(s, j) == j);
            lemma_number_ends(s, j, digits, 0);
            assert(s.subrange(j, e) == digits);
        },
        Tree::Variable { gap, name } => {
            lemma_reads_name(s, i, gap, name, env);
            lemma_identifier(name);
        },
        Tree::Pi { gap, name } => {
            lemma_constant_names();
            lemma_reads_name(s, i, gap, name, env);
            lemma_identifier(name);
        },
        Tree::Euler { gap, name } => {
            lemma_constant_names();
            lemma_reads_name(s, i, gap, name, env);
            lemma_identifier(name);
        },
        Tree::Bracket { gap, inner, end } => {
            let j = i + gap;
            let rest = written(*inner) + (spaces(end) + seq![')']);
            assert(written(t) =~= spaces(gap) + (seq!['('] + rest));
            lemma_stands_concat(s, i, spaces(gap), seq!['('] + rest);
            lemma_gap(s, i, gap);
            lemma_stands_concat(s, j, seq!['('], rest);
            lemma_stands_at(s, j, seq!['('], 0);
            assert(cmd_expr::after_spaces(s, j) == j);
            lemma_reads_inside(*inner, s, j + 1, end, env);
            assert(steps(*inner, env.vars) + Seq::<InstrView>::empty() =~= steps(
                *inner,
                env.vars,
            ));
        },
        Tree::Call { gap, f, name, before, inner, end } => {
            lemma_reads_call(s, i, gap, f, name, before, *inner, end, env, t);
        },
        _ => {},
    }
}

proof fn lemma_reads_call(
    s: Seq<char>,
    i: int,
    gap: nat,
    f: MathFunction,
    name: Seq<char>,
    before: nat,
    inner: Tree,
    end: nat,
    env: Env,
    t: Tree,
)
    requires
        t == (Tree::Call { gap, f, name, before, inner: Box::new(inner), end }),
        well_written(t, env.vars),
        stands(s, i, written(t)),
        ends(s, i + written(t).len()),
    ensures
        is_read(cmd_expr::primary(s, i, env), t, env.vars, s, i),
        ({
            let j = cmd_expr::after_spaces(s, i);
            i <= j < s.len() && s[j] != '+' && s[j] != '-'
        }),
    decreases inner, 5int,
{
    let j = i + gap;
    let n = j + name.len();
    let k = n + before;
    let e = i + written(t).len();
    let rest = written(inner) + (spaces(end) + seq![')']);
    let tail = spaces(before) + (seq!['('] + rest);
    assert(written(t) =~= spaces(gap) + (name + tail));
    lemma_function_names(f, name);
    lemma_identifier(name);
    lemma_stands_concat(s, i, spaces(gap), name + tail);
    lemma_gap(s, i, gap);
    lemma_stands_concat(s, j, name, tail);
    lemma_stands_at(s, j, name, 0);
    assert(cmd_expr::after_spaces(s, j) == j);
    lemma_stands_concat(s, n, spaces(before), seq!['('] + rest);
    lemma_gap(s, n, before);
    lemma_stands_concat(s, k, seq!['('], rest);
    lemma_stands_at(s, k, seq!['('], 0);
    assert(cmd_expr::after_spaces(s, k) == k);
    assert(!cmd_expr::in_name(s[n])) by {
        if before > 0 {
            lemma_stands_at(s, n, spaces(before), 0);
        }
    }
    lemma_name_ends(s, j, name, 0);
    assert(s.subrange(j, n) == name);
    lemma_reads_inside(inner, s, k + 1, end, env);
    cmd_expr::lemma_after_spaces(s, e);
    lemma_between(s, e, e);
    assert(steps(inner, env.vars) + seq![InstrView::Call(f)] =~= steps(inner, env.vars).push(
        InstrView::Call(f),
    ));
}

proof fn lemma_reads_unary(t: Tree, s: Seq<char>, i: int, env: Env)
    requires
        well_written(t, env.vars),
        rank(t) <= 1,
        stands(s, i, written(t)),
        ends(s, i + written(t).len()),
    ensures
        is_read(cmd_expr::unary(s, i, env), t, env.vars, s, i),
    decreases t, 1int,
{
    match t {
        Tree::Signed { gap, minus, inner } => {
            let j = i + gap;
            let sign = seq![
                if minus {
                    '-'
                } else {
                    '+'
                },
            ];
            assert(written(t) =~= spaces(gap) + (sign + written(*inner)));
            lemma_stands_concat(s, i, spaces(gap), sign + written(*inner));
            lemma_gap(s, i, gap);
            lemma_stands_concat(s, j, sign, written(*inner));
            lemma_stands_at(s, j, sign, 0);
            assert(cmd_expr::after_spaces(s, j) == j);
            lemma_reads_primary(*inner, s, j + 1, env);
        },
        _ => {
            lemma_reads_primary(t, s, i, env);
        },
    }
}

/// A product is read as far as it is written, and goes on behind it.
proof fn lemma_reads_product(t: Tree, s: Seq<char>, i: int, env: Env)
    requires
        well_written(t, env.vars),
        rank(t) <= 2,
        stands(s, i, written(t)),
        ends(s, i + written(t).len()),
    ensures
        cmd_expr::multiplicative(s, i, env) == cmd_expr::multiplicative_rest(
            s,
            i + written(t).len(),
            steps(t, env.vars),
            env,
        ),
    decreases t, 2int,
{
    let e = i + written(t).len();
    match t {
        Tree::Product { left, gap, times, right } => {
            let c = if times {
                '*'
            } else {
                '/'
            };
            let m = i + written(*left).len();
            let j = m + gap;
            let op = spaces(gap) + seq![c];
            lemma_stands_concat(s, i, written(*left) + op, written(*right));
            lemma_stands_concat(s, i, written(*left), op);
            lemma_stands_concat(s, m, spaces(gap), seq![c]);
            lemma_gap(s, m, gap);
            lemma_stands_at(s, j, seq![c], 0);
            assert(cmd_expr::after_spaces(s, j) == j);
            lemma_reads_product(*left, s, i, env);
            lemma_reads_unary(*right, s, j + 1, env);
            let part = cmd_expr::unary(s, j + 1, env);
            let k = part.next.unwrap();
            lemma_product_goes_on(s, e, k, steps(t, env.vars), env);
        },
        _ => {
            lemma_reads_unary(t, s, i, env);
            let part = cmd_expr::unary(s, i, env);
            let k = part.next.unwrap();
            lemma_product_goes_on(s, e, k, steps(t, env.vars), env);
        },
    }
}

/// A sum is read as far as it is written, and goes on behind it.
proof fn lemma_reads_sum(t: Tree, s: Seq<char>, i: int, env: Env)
    requires
        well_written(t, env.vars),
        stands(s, i, written(t)),
        ends(s, i + written(t).len()),
        no_product(s, i + written(t).len()),
    ensures
        cmd_expr::additive(s, i, env) == cmd_expr::additive_rest(
            s,
            i + written(t).len(),
            steps(t, env.vars),
            env,
        ),
    decreases t, 3int,
{
    let e = i + written(t).len();
    let z = cmd_expr::after_spaces(s, e);
    cmd_expr::lemma_after_spaces(s, e);
    match t {
        Tree::Sum { left, gap, plus, right } => {
            let c = if plus {
                '+'
            } else {
                '-'
            };
            let m = i + written(*left).len();
            let j = m + gap;
            let op = spaces(gap) + seq![c];
            lemma_stands_concat(s, i, written(*left) + op, written(*right));
            lemma_stands_concat(s, i, written(*left), op);
            lemma_stands_concat(s, m, spaces(gap), seq![c]);
            lemma_gap(s, m, gap);
            lemma_stands_at(s, j, seq![c], 0);
            assert(cmd_expr::after_spaces(s, j) == j);
            lemma_reads_sum(*left, s, i, env);
            lemma_reads_product(*right, s, j + 1, env);
            lemma_written_len(*right, env.vars);
            assert(cmd_expr::multiplicative(s, j + 1, env) == cmd_expr::done(
                steps(*right, env.vars),
                z,
            ));
            lemma_sum_goes_on(s, e, z, steps(t, env.vars), env);
        },
        _ => {
            lemma_reads_product(t, s, i, env);
            lemma_written_len(t, env.vars);
            assert(cmd_expr::multiplicative(s, i, env) == cmd_expr::done(
                steps(t, env.vars),
                z,
            ));
            lemma_sum_goes_on(s, e, z, steps(t, env.vars), env);
        },
    }
}

/// An expression is read as it was written: sums and products associate to the left,
/// products bind tighter than sums, a sign belongs to what stands right behind it, and
/// brackets hold together what stands between them; spaces make no difference.
pub proof fn law_expressions_read_as_written(t: Tree, behind: nat, env: Env)
    requires
        well_written(t, env.vars),
    ensures
        cmd_expr::expression(written(t) + spaces(behind), env) == steps(t, env.vars),
{
    let w = written(t);
    let s = w + spaces(behind);
    let e = w.len() as int;
    assert(s.subrange(0, e) =~= w);
    assert(s.subrange(e, s.len() as int) =~= spaces(behind));
    lemma_gap(s, e, behind);
    assert(cmd_expr::after_spaces(s, s.len() as int) == s.len());
    lemma_written_len(t, env.vars);
    lemma_reads_sum(t, s, 0, env);
    assert(cmd_expr::additive(s, 0, env) == cmd_expr::done(steps(t, env.vars), s.len() as int));
    assert(s.subrange(s.len() as int, s.len() as int) =~= Seq::empty());
}

/// A sum of three numbers, each with one space around its operators.
spec fn three(
    a: Seq<char>,
    first_plus: bool,
    b: Seq<char>,
    second_plus: bool,
    c: Seq<char>,
) -> Tree {
    Tree::Sum {
        left: Box::new(two(a, first_plus, b)),
        gap: 1,
        plus: second_plus,
        right: Box::new(Tree::Number { gap: 1, digits: c }),
    }
}

spec fn two(a: Seq<char>, plus: bool, b: Seq<char>) -> Tree {
    Tree::Sum {
        left: Box::new(Tree::Number { gap: 0, digits: a }),
        gap: 1,
        plus,
        right: Box::new(Tree::Number { gap: 1, digits: b }),
    }
}

/// How an addition or a subtraction is written with spaces around it.
pub open spec fn sum_text(plus: bool) -> Seq<char> {
    if plus {
        " + "@
    } else {
        " - "@
    }
}

/// The step of an addition or a subtraction.
pub open spec fn sum_step(plus: bool) -> InstrView {
    if plus {
        InstrView::Plus
    } else {
        InstrView::Minus
    }
}

proof fn lemma_sum_text(left: Tree, plus: bool, b: Seq<char>)
    ensures
        written(
            Tree::Sum {
                left: Box::new(left),
                gap: 1,
                plus,
                right: Box::new(Tree::Number { gap: 1, digits: b }),
            },
        ) == written(left) + sum_text(plus) + b,
{
    reveal_strlit(" + ");
    reveal_strlit(" - ");
    let y = Tree::Number { gap: 1, digits: b };
    assert(spaces(1) =~= seq![' ']);
    assert(written(y) =~= seq![' '] + b);
    let c = if plus {
        '+'
    } else {
        '-'
    };
    assert(sum_text(plus) =~= seq![' ', c, ' ']);
    assert(written(left) + (spaces(1) + seq![c]) + written(y) =~= written(left) + sum_text(plus)
        + b);
}

proof fn lemma_sum_steps(left: Tree, plus: bool, b: Seq<char>, vars: Map<Seq<char>, u64>)
    ensures
        steps(
            Tree::Sum {
                left: Box::new(left),
                gap: 1,
                plus,
                right: Box::new(Tree::Number { gap: 1, digits: b }),
            },
            vars,
        ) == steps(left, vars) + seq![InstrView::Number(b), sum_step(plus)],
{
    let y = Tree::Number { gap: 1, digits: b };
    assert(steps(y, vars) == seq![InstrView::Number(b)]);
    assert((steps(left, vars) + steps(y, vars)).push(sum_step(plus)) =~= steps(left, vars) + seq![
        InstrView::Number(b),
        sum_step(plus),
    ]);
}

/// Sums and differences of single numbers are computed from the left: first the two
/// first ones, then the third.
pub proof fn law_sums_associate_to_the_left(
    a: Seq<char>,
    first_plus: bool,
    b: Seq<char>,
    second_plus: bool,
    c: Seq<char>,
    env: Env,
)
    requires
        is_numeral(a),
        is_numeral(b),
        is_numeral(c),
    ensures
        cmd_expr::expression(a + sum_text(first_plus) + b + sum_text(second_plus) + c, env)
            == seq![
            InstrView::Number(a),
            InstrView::Number(b),
            sum_step(first_plus),
            InstrView::Number(c),
            sum_step(second_plus),
        ],
{
    lemma_three_text(a, first_plus, b, second_plus, c);
    lemma_three_well_written(a, first_plus, b, second_plus, c, env.vars);
    law_expressions_read_as_written(three(a, first_plus, b, second_plus, c), 0, env);
    lemma_three_steps(a, first_plus, b, second_plus, c, env.vars);
}

proof fn lemma_three_text(
    a: Seq<char>,
    first_plus: bool,
    b: Seq<char>,
    second_plus: bool,
    c: Seq<char>,
)
    ensures
        written(three(a, first_plus, b, second_plus, c)) + spaces(0) == a + sum_text(first_plus) + b
            + sum_text(second_plus) + c,
{
    let x = Tree::Number { gap: 0, digits: a };
    assert(spaces(0) =~= Seq::empty());
    assert(written(x) =~= a);
    lemma_sum_text(x, first_plus, b);
    lemma_sum_text(two(a, first_plus, b), second_plus, c);
    let w = written(three(a, first_plus, b, second_plus, c));
    assert(w + spaces(0) =~= w);
}

proof fn lemma_three_well_written(
    a: Seq<char>,
    first_plus: bool,
    b: Seq<char>,
    second_plus: bool,
    c: Seq<char>,
    vars: Map<Seq<char>, u64>,
)
    requires
        is_numeral(a),
        is_numeral(b),
        is_numeral(c),
    ensures
        well_written(three(a, first_plus, b, second_plus, c), vars),
{
    assert(well_written(Tree::Number { gap: 0, digits: a }, vars));
    assert(well_written(Tree::Number { gap: 1, digits: b }, vars));
    assert(well_written(Tree::Number { gap: 1, digits: c }, vars));
    assert(well_written(two(a, first_plus, b), vars));
}

proof fn lemma_three_steps(
    a: Seq<char>,
    first_plus: bool,
    b: Seq<char>,
    second_plus: bool,
    c: Seq<char>,
    vars: Map<Seq<char>, u64>,
)
    ensures
        steps(three(a, first_plus, b, second_plus, c), vars) == seq![
            InstrView::Number(a),
            InstrView::Number(b),
            sum_step(first_plus),
            InstrView::Number(c),
            sum_step(second_plus),
        ],
{
    let x = Tree::Number { gap: 0, digits: a };
    lemma_sum_steps(x, first_plus, b, vars);
    lemma_sum_steps(two(a, first_plus, b), second_plus, c, vars);
    assert(steps(x, vars) == seq![InstrView::Number(a)]);
    let l = InstrView::Number(a);
    let m = InstrView::Number(b);
    let n = InstrView::Number(c);
    let o = sum_step(first_plus);
    let q = sum_step(second_plus);
    lemma_five(l, m, o, n, q);
}

proof fn lemma_five(a: InstrView, b: InstrView, c: InstrView, d: InstrView, e: InstrView)
    ensures
        seq![a] + seq![b, c] + seq![d, e] == seq![a, b, c, d, e],
{
    assert(seq![a] + seq![b, c] + seq![d, e] =~= seq![a, b, c, d, e]);
}

// ---------------------------------------------------------------------------
// Values
// ---------------------------------------------------------------------------
/// The value of an expression, given the arithmetic on numbers; the parts of an
/// operation come from the left to the right, and the first that has no value decides.
pub open spec fn value(
    t: Tree,
    vars: Map<Seq<char>, u64>,
    file: Seq<char>,
    line: usize,
    arith: spec_fn(WorkView) -> u64,
) -> Result<u64, StepView>
    decreases t,
{
    match t {
        Tree::Number { gap, digits } => Ok(arith(WorkView::Parse(digits))),
        Tree::Variable { gap, name } => Ok(vars[name]),
        Tree::Pi { gap, name } => Ok(arith(WorkView::Pi)),
        Tree::Euler { gap, name } => Ok(arith(WorkView::Euler)),
        Tree::Bracket { gap, inner, end } => value(*inner, vars, file, line, arith),
        Tree::Call { gap, f, name, before, inner, end } => match value(
            *inner,
            vars,
            file,
            line,
            arith,
        ) {
            Ok(a) => if has_value(f, a) {
                Ok(arith(WorkView::Apply(f, a)))
            } else {
                Err(StepView::OutOfDomain { complaint: complaint_text(f), arg: a })
            },
            Err(e) => Err(e),
        },
        Tree::Signed { gap, minus, inner } => match value(*inner, vars, file, line, arith) {
            Ok(a) => if minus {
                Ok(arith(WorkView::Negate(a)))
            } else {
                Ok(a)
            },
            Err(e) => Err(e),
        },
        Tree::Product { left, gap, times, right } => match value(*left, vars, file, line, arith) {
            Ok(a) => match value(*right, vars, file, line, arith) {
                Ok(b) => if times {
                    Ok(arith(WorkView::Times(a, b)))
                } else if is_either_zero(b) {
                    Err(
                        StepView::Failed(
                            ConfigErrorView::SyntaxError { file, line, message: "division by zero"@ },
                        ),
                    )
                } else {
                    Ok(arith(WorkView::Divide(a, b)))
                },
                Err(e) => Err(e),
            },
            Err(e) => Err(e),
        },
        Tree::Sum { left, gap, plus, right } => match value(*left, vars, file, line, arith) {
            Ok(a) => match value(*right, vars, file, line, arith) {
                Ok(b) => if plus {
                    Ok(arith(WorkView::Plus(a, b)))
                } else {
                    Ok(arith(WorkView::Minus(a, b)))
                },
                Err(e) => Err(e),
            },
            Err(e) => Err(e),
        },
    }
}

/// Whether bits are those of zero, of either sign.
pub open spec fn is_either_zero(bits: u64) -> bool {
    bits == 0 || bits == 0x8000_0000_0000_0000
}

/// Whether bits are those of a number below zero, infinity among them.
pub open spec fn is_below_zero(bits: u64) -> bool {
    0x8000_0000_0000_0000 < bits <= 0xFFF0_0000_0000_0000
}

/// Whether a function has a value for a number: roots of what is not below zero,
/// logarithms of what is above it, anything else of every number.
pub open spec fn has_value(f: MathFunction, arg: u64) -> bool {
    match f {
        MathFunction::Sqrt => !is_below_zero(arg),
        MathFunction::Log | MathFunction::Log10 | MathFunction::LinearToDb => !is_below_zero(arg)
            && !is_either_zero(arg),
        _ => true,
    }
}

/// What is said where a function has no value.
pub open spec fn complaint_text(f: MathFunction) -> Seq<char> {
    match f {
        MathFunction::Sqrt => "sqrt of negative number "@,
        MathFunction::Log => "log of non-positive number "@,
        MathFunction::Log10 => "log10 of non-positive number "@,
        _ => "linear_to_db of non-positive "@,
    }
}

/// Where a function has no value, there is a complaint, and nowhere else.
pub proof fn law_complaints(f: MathFunction, arg: u64)
    ensures
        machine::complaint(f, arg) == if has_value(f, arg) {
            None
        } else {
            Some(complaint_text(f))
        },
{
}

/// What a computation comes to where the arithmetic is done as asked.
pub open spec fn outcome(m: MachineView, arith: spec_fn(WorkView) -> u64) -> StepView
    decreases m.program.len() - m.at,
{
    let n = machine::settled(m);
    match machine::comes_next(n) {
        StepView::Compute(w) => if m.at <= n.at < n.program.len() && n.program == m.program {
            outcome(machine::supplied(n, arith(w)), arith)
        } else {
            machine::comes_next(n)
        },
        step => step,
    }
}

proof fn lemma_settled(m: MachineView)
    requires
        0 <= m.at <= m.program.len(),
    ensures
        m.at <= machine::settled(m).at <= m.program.len(),
        machine::settled(m).program == m.program,
    decreases m.program.len() - m.at,
{
    if m.at < m.program.len() {
        match m.program[m.at] {
            InstrView::Value(v) => {
                lemma_settled(machine::supplied(m, v));
            },
            _ => {},
        }
    }
}

/// A computation one step on, with a number on top of the stack in place of those that
/// the step took.
spec fn stepped(m: MachineView, stack: Seq<u64>) -> MachineView {
    MachineView { at: m.at + 1, stack, ..m }
}

proof fn lemma_value_step(m: MachineView, v: u64, arith: spec_fn(WorkView) -> u64)
    requires
        0 <= m.at < m.program.len(),
        m.program[m.at] == InstrView::Value(v),
    ensures
        outcome(m, arith) == outcome(stepped(m, m.stack.push(v)), arith),
{
    let next = machine::supplied(m, v);
    assert(m.stack.take(m.stack.len() as int) =~= m.stack);
    assert(next == stepped(m, m.stack.push(v)));
    lemma_settled(m);
    lemma_settled(next);
    assert(machine::settled(m) == machine::settled(next));
}

proof fn lemma_computed_step(m: MachineView, w: WorkView, arith: spec_fn(WorkView) -> u64)
    requires
        0 <= m.at < m.program.len(),
        !(m.program[m.at] is Value),
        machine::asked(m, m.program[m.at]) == StepView::Compute(w),
    ensures
        outcome(m, arith) == outcome(machine::supplied(m, arith(w)), arith),
{
    assert(machine::settled(m) == m);
}

/// What some steps do to a computation: they leave a number more, or end it.
spec fn comes_out(
    m: MachineView,
    n: nat,
    result: Result<u64, StepView>,
    arith: spec_fn(WorkView) -> u64,
) -> bool {
    match result {
        Ok(v) => outcome(m, arith) == outcome(
            MachineView { at: m.at + n, stack: m.stack.push(v), ..m },
            arith,
        ),
        Err(e) => outcome(m, arith) == e,
    }
}

proof fn lemma_part(code: Seq<InstrView>, at: int, a: Seq<InstrView>, b: Seq<InstrView>)
    requires
        0 <= at && at + a.len() + b.len() <= code.len(),
        code.subrange(at, at + a.len() + b.len()) == a + b,
    ensures
        code.subrange(at, at + a.len()) == a,
        code.subrange(at + a.len(), at + a.len() + b.len()) == b,
{
    let w = a + b;
    assert(code.subrange(at, at + a.len()) =~= a) by {
        assert forall|k: int| 0 <= k < a.len() implies code[at + k] == a[k] by {
            assert(code.subrange(at, at + w.len())[k] == w[k]);
        }
    }
    assert(code.subrange(at + a.len(), at + w.len()) =~= b) by {
        assert forall|k: int| 0 <= k < b.len() implies code[at + a.len() + k] == b[k] by {
            assert(code.subrange(at, at + w.len())[a.len() + k] == w[a.len() + k]);
        }
    }
}

proof fn lemma_one(code: Seq<InstrView>, at: int, i: InstrView)
    requires
        0 <= at && at + 1 <= code.len(),
        code.subrange(at, at + 1) == seq![i],
    ensures
        code[at] == i,
{
    assert(code.subrange(at, at + 1)[0] == i);
}

/// An operation on the number on top.
proof fn lemma_top(m: MachineView, rest: Seq<u64>, a: u64, w: WorkView, arith: spec_fn(WorkView) -> u64)
    requires
        0 <= m.at < m.program.len(),
        m.stack == rest.push(a),
        machine::operands(m.program[m.at]) == 1,
        machine::asked(m, m.program[m.at]) == StepView::Compute(w),
    ensures
        outcome(m, arith) == outcome(stepped(m, rest.push(arith(w))), arith),
{
    lemma_computed_step(m, w, arith);
    assert(m.stack.take(m.stack.len() - 1) =~= rest);
    assert(machine::supplied(m, arith(w)) == stepped(m, rest.push(arith(w))));
}

/// An operation on the two numbers on top.
proof fn lemma_two_tops(
    m: MachineView,
    rest: Seq<u64>,
    a: u64,
    b: u64,
    w: WorkView,
    arith: spec_fn(WorkView) -> u64,
)
    requires
        0 <= m.at < m.program.len(),
        m.stack == rest.push(a).push(b),
        machine::operands(m.program[m.at]) == 2,
        machine::asked(m, m.program[m.at]) == StepView::Compute(w),
    ensures
        outcome(m, arith) == outcome(stepped(m, rest.push(arith(w))), arith),
{
    lemma_computed_step(m, w, arith);
    assert(m.stack.take(m.stack.len() - 2) =~= rest);
    assert(machine::supplied(m, arith(w)) == stepped(m, rest.push(arith(w))));
}

proof fn lemma_runs(
    t: Tree,
    vars: Map<Seq<char>, u64>,
    m: MachineView,
    arith: spec_fn(WorkView) -> u64,
)
    requires
        0 <= m.at && m.at + steps(t, vars).len() <= m.program.len(),
        m.program.subrange(m.at, m.at + steps(t, vars).len()) == steps(t, vars),
    ensures
        comes_out(m, steps(t, vars).len(), value(t, vars, m.file, m.line, arith), arith),
    decreases t,
{
    match t {
        Tree::Number { gap, digits } => {
            lemma_one(m.program, m.at, InstrView::Number(digits));
            lemma_leaf(m, WorkView::Parse(digits), arith);
        },
        Tree::Variable { gap, name } => {
            lemma_one(m.program, m.at, InstrView::Value(vars[name]));
            lemma_value_step(m, vars[name], arith);
        },
        Tree::Pi { gap, name } => {
            lemma_one(m.program, m.at, InstrView::Pi);
            lemma_leaf(m, WorkView::Pi, arith);
        },
        Tree::Euler { gap, name } => {
            lemma_one(m.program, m.at, InstrView::Euler);
            lemma_leaf(m, WorkView::Euler, arith);
        },
        Tree::Bracket { gap, inner, end } => {
            lemma_runs(*inner, vars, m, arith);
        },
        Tree::Call { gap, f, name, before, inner, end } => {
            let code = steps(*inner, vars);
            let last = InstrView::Call(f);
            assert(steps(t, vars) =~= code + seq![last]);
            lemma_part(m.program, m.at, code, seq![last]);
            lemma_one(m.program, m.at + code.len(), last);
            lemma_runs(*inner, vars, m, arith);
            lemma_called(m, code.len(), f, value(*inner, vars, m.file, m.line, arith), arith);
        },
        Tree::Signed { gap, minus, inner } => {
            let code = steps(*inner, vars);
            lemma_signed(t, code, vars, m);
            lemma_runs(*inner, vars, m, arith);
            if minus {
                match value(*inner, vars, m.file, m.line, arith) {
                    Ok(a) => {
                        let m1 = MachineView {
                            at: m.at + code.len(),
                            stack: m.stack.push(a),
                            ..m
                        };
                        lemma_top(m1, m.stack, a, WorkView::Negate(a), arith);
                    },
                    Err(_) => {},
                }
            }
        },
        Tree::Product { left, gap, times, right } => {
            let op = if times {
                InstrView::Times
            } else {
                InstrView::Divide
            };
            lemma_binary(m, steps(*left, vars), steps(*right, vars), op);
            lemma_runs(*left, vars, m, arith);
            match value(*left, vars, m.file, m.line, arith) {
                Ok(a) => {
                    let m1 = MachineView {
                        at: m.at + steps(*left, vars).len(),
                        stack: m.stack.push(a),
                        ..m
                    };
                    lemma_runs(*right, vars, m1, arith);
                    match value(*right, vars, m.file, m.line, arith) {
                        Ok(b) => {
                            lemma_multiplied(
                                m1,
                                m.stack,
                                a,
                                b,
                                steps(*right, vars).len(),
                                times,
                                arith,
                            );
                        },
                        Err(_) => {},
                    }
                },
                Err(_) => {},
            }
        },
        Tree::Sum { left, gap, plus, right } => {
            lemma_binary(m, steps(*left, vars), steps(*right, vars), sum_step(plus));
            lemma_runs(*left, vars, m, arith);
            match value(*left, vars, m.file, m.line, arith) {
                Ok(a) => {
                    let m1 = MachineView {
                        at: m.at + steps(*left, vars).len(),
                        stack: m.stack.push(a),
                        ..m
                    };
                    lemma_runs(*right, vars, m1, arith);
                    match value(*right, vars, m.file, m.line, arith) {
                        Ok(b) => {
                            let m2 = MachineView {
                                at: m1.at + steps(*right, vars).len(),
                                stack: m1.stack.push(b),
                                ..m1
                            };
                            let w = if plus {
                                WorkView::Plus(a, b)
                            } else {
                                WorkView::Minus(a, b)
                            };
                            lemma_two_tops(m2, m.stack, a, b, w, arith);
                        },
                        Err(_) => {},
                    }
                },
                Err(_) => {},
            }
        },
    }
}

proof fn lemma_leaf(m: MachineView, w: WorkView, arith: spec_fn(WorkView) -> u64)
    requires
        0 <= m.at < m.program.len(),
        !(m.program[m.at] is Value),
        machine::operands(m.program[m.at]) == 0,
        machine::asked(m, m.program[m.at]) == StepView::Compute(w),
    ensures
        outcome(m, arith) == outcome(stepped(m, m.stack.push(arith(w))), arith),
{
    lemma_computed_step(m, w, arith);
    assert(m.stack.take(m.stack.len() as int) =~= m.stack);
    assert(machine::supplied(m, arith(w)) == stepped(m, m.stack.push(arith(w))));
}

proof fn lemma_signed(t: Tree, code: Seq<InstrView>, vars: Map<Seq<char>, u64>, m: MachineView)
    requires
        t matches Tree::Signed { gap, minus, inner } && code == steps(*inner, vars),
        0 <= m.at && m.at + steps(t, vars).len() <= m.program.len(),
        m.program.subrange(m.at, m.at + steps(t, vars).len()) == steps(t, vars),
    ensures
        m.at + code.len() <= m.program.len(),
        m.program.subrange(m.at, m.at + code.len()) == code,
        t matches Tree::Signed { gap, minus, inner } && minus ==> m.at + code.len()
            < m.program.len() && m.program[m.at + code.len()] == InstrView::Negate,
{
    let last = InstrView::Negate;
    match t {
        Tree::Signed { gap, minus, inner } => {
            if minus {
                assert(steps(t, vars) =~= code + seq![last]);
                lemma_part(m.program, m.at, code, seq![last]);
                lemma_one(m.program, m.at + code.len(), last);
            }
        },
        _ => {},
    }
}

proof fn lemma_binary(m: MachineView, a: Seq<InstrView>, b: Seq<InstrView>, op: InstrView)
    requires
        0 <= m.at && m.at + a.len() + b.len() + 1 <= m.program.len(),
        m.program.subrange(m.at, m.at + a.len() + b.len() + 1) == (a + b).push(op),
    ensures
        m.program.subrange(m.at, m.at + a.len()) == a,
        m.program.subrange(m.at + a.len(), m.at + a.len() + b.len()) == b,
        m.program[m.at + a.len() + b.len()] == op,
{
    assert((a + b).push(op) =~= (a + b) + seq![op]);
    lemma_part(m.program, m.at, a + b, seq![op]);
    lemma_part(m.program, m.at, a, b);
    lemma_one(m.program, m.at + a.len() + b.len(), op);
}

proof fn lemma_called(
    m: MachineView,
    n: nat,
    f: MathFunction,
    arg: Result<u64, StepView>,
    arith: spec_fn(WorkView) -> u64,
)
    requires
        0 <= m.at && m.at + n < m.program.len(),
        m.program[m.at + n] == InstrView::Call(f),
        comes_out(m, n, arg, arith),
    ensures
        comes_out(
            m,
            n + 1,
            match arg {
                Ok(a) => if has_value(f, a) {
                    Ok(arith(WorkView::Apply(f, a)))
                } else {
                    Err(StepView::OutOfDomain { complaint: complaint_text(f), arg: a })
                },
                Err(e) => Err(e),
            },
            arith,
        ),
{
    match arg {
        Ok(a) => {
            let m1 = MachineView { at: m.at + n, stack: m.stack.push(a), ..m };
            law_complaints(f, a);
            if has_value(f, a) {
                lemma_top(m1, m.stack, a, WorkView::Apply(f, a), arith);
            } else {
                assert(machine::settled(m1) == m1);
            }
        },
        Err(_) => {},
    }
}

proof fn lemma_multiplied(
    m1: MachineView,
    rest: Seq<u64>,
    a: u64,
    b: u64,
    n: nat,
    times: bool,
    arith: spec_fn(WorkView) -> u64,
)
    requires
        0 <= m1.at && m1.at + n < m1.program.len(),
        m1.stack == rest.push(a),
        m1.program[m1.at + n] == if times {
            InstrView::Times
        } else {
            InstrView::Divide
        },
    ensures
        ({
            let m2 = MachineView { at: m1.at + n, stack: m1.stack.push(b), ..m1 };
            if times {
                outcome(m2, arith) == outcome(
                    stepped(m2, rest.push(arith(WorkView::Times(a, b)))),
                    arith,
                )
            } else if is_either_zero(b) {
                outcome(m2, arith) == StepView::Failed(
                    ConfigErrorView::SyntaxError {
                        file: m1.file,
                        line: m1.line,
                        message: "division by zero"@,
                    },
                )
            } else {
                outcome(m2, arith) == outcome(
                    stepped(m2, rest.push(arith(WorkView::Divide(a, b)))),
                    arith,
                )
            }
        }),
{
    let m2 = MachineView { at: m1.at + n, stack: m1.stack.push(b), ..m1 };
    assert(machine::is_zero(b) == is_either_zero(b));
    if times {
        lemma_two_tops(m2, rest, a, b, WorkView::Times(a, b), arith);
    } else if is_either_zero(b) {
        assert(machine::settled(m2) == m2);
    } else {
        lemma_two_tops(m2, rest, a, b, WorkView::Divide(a, b), arith);
    }
}

/// The value that is computed for an expression is the value of the tree that it was
/// written from, whatever the arithmetic; where that has none, the computation ends in
/// the error of the first part without one.
pub proof fn law_value_is_that_of_the_tree(
    t: Tree,
    behind: nat,
    env: Env,
    arith: spec_fn(WorkView) -> u64,
)
    requires
        well_written(t, env.vars),
    ensures
        outcome(
            MachineView {
                program: cmd_expr::expression(written(t) + spaces(behind), env),
                at: 0,
                stack: Seq::empty(),
                file: env.file,
                line: env.line,
            },
            arith,
        ) == match value(t, env.vars, env.file, env.line, arith) {
            Ok(v) => StepView::Done(v),
            Err(e) => e,
        },
{
    law_expressions_read_as_written(t, behind, env);
    let program = steps(t, env.vars);
    let m = MachineView {
        program,
        at: 0,
        stack: Seq::<u64>::empty(),
        file: env.file,
        line: env.line,
    };
    assert(program.subrange(0, program.len() as int) =~= program);
    lemma_runs(t, env.vars, m, arith);
    match value(t, env.vars, env.file, env.line, arith) {
        Ok(v) => {
            let last = MachineView { at: program.len() as int, stack: m.stack.push(v), ..m };
            assert(machine::settled(last) == last);
            assert(machine::comes_next(last) == StepView::Done(v));
        },
        Err(_) => {},
    }
}

// ---------------------------------------------------------------------------
// What is no expression
// ---------------------------------------------------------------------------
/// The last step of what cannot be read.
pub open spec fn fails_with(code: Seq<InstrView>, env: Env, message: Seq<char>) -> bool {
    code.len() > 0 && code.last() == InstrView::Fail(
        ConfigErrorView::SyntaxError { file: env.file, line: env.line, message },
    )
}

/// A bracket that is not closed is an error.
pub proof fn law_open_brackets_are_errors(t: Tree, gap: nat, behind: nat, env: Env)
    requires
        well_written(t, env.vars),
    ensures
        fails_with(
            cmd_expr::expression(spaces(gap) + seq!['('] + written(t) + spaces(behind), env),
            env,
            "missing closing ')'"@,
        ),
{
    let w = written(t);
    let s = spaces(gap) + seq!['('] + w + spaces(behind);
    let j = gap as int;
    let e = j + 1 + w.len();
    assert(s.subrange(0, j) =~= spaces(gap));
    assert(s.subrange(j + 1, e) =~= w);
    assert(s.subrange(e, s.len() as int) =~= spaces(behind));
    lemma_gap(s, 0, gap);
    assert(s[j] == '(');
    assert(cmd_expr::after_spaces(s, j) == j);
    lemma_gap(s, e, behind);
    assert(cmd_expr::after_spaces(s, s.len() as int) == s.len());
    lemma_reads_sum(t, s, j + 1, env);
    assert(cmd_expr::additive(s, j + 1, env) == cmd_expr::done(
        steps(t, env.vars),
        s.len() as int,
    ));
    assert(cmd_expr::primary(s, 0, env) == cmd_expr::failed(
        steps(t, env.vars),
        env,
        "missing closing ')'"@,
    ));
}

/// A bracket that closes none is an error.
pub proof fn law_stray_brackets_are_errors(t: Tree, gap: nat, behind: Seq<char>, env: Env)
    requires
        well_written(t, env.vars),
    ensures
        fails_with(
            cmd_expr::expression(written(t) + spaces(gap) + seq![')'] + behind, env),
            env,
            "unexpected trailing characters: '"@ + (seq![')'] + behind) + "'"@,
        ),
{
    let w = written(t);
    let s = w + spaces(gap) + seq![')'] + behind;
    let e = w.len() as int;
    let z = e + gap;
    assert(s.subrange(0, e) =~= w);
    assert(s.subrange(e, z + 1) =~= spaces(gap) + seq![')']);
    lemma_closing(s, e, gap);
    lemma_reads_sum(t, s, 0, env);
    assert(cmd_expr::additive(s, 0, env) == cmd_expr::done(steps(t, env.vars), z)) by {
        lemma_written_len(t, env.vars);
    }
    let rest = s.subrange(z, s.len() as int);
    assert(rest =~= seq![')'] + behind);
    assert(text::trim_start(rest) == rest);
}

/// A name that stands for nothing is an error.
pub proof fn law_unknown_names_are_errors(gap: nat, name: Seq<char>, behind: nat, env: Env)
    requires
        is_identifier(name),
        name != "pi"@ && name != "PI"@ && name != "e"@ && name != "E"@,
        !env.vars.dom().contains(name),
    ensures
        fails_with(
            cmd_expr::expression(spaces(gap) + name + spaces(behind), env),
            env,
            "undefined variable '"@ + name + "'"@,
        ),
{
    let s = spaces(gap) + name + spaces(behind);
    let e = gap as int + name.len();
    assert(s.subrange(0, e) =~= spaces(gap) + name);
    assert(s.subrange(e, s.len() as int) =~= spaces(behind));
    lemma_gap(s, e, behind);
    assert(cmd_expr::after_spaces(s, s.len() as int) == s.len());
    lemma_reads_name(s, 0, gap, name, env);
    lemma_identifier(name);
    assert(cmd_expr::unary(s, 0, env) == cmd_expr::primary(s, 0, env));
}

/// The call of a function that there is not is an error.
pub proof fn law_unknown_functions_are_errors(
    gap: nat,
    name: Seq<char>,
    before: nat,
    t: Tree,
    end: nat,
    behind: Seq<char>,
    env: Env,
)
    requires
        is_identifier(name),
        forall|f: MathFunction| !has_name(f, name),
        well_written(t, env.vars),
    ensures
        ({
            let code = cmd_expr::expression(
                spaces(gap) + (name + (spaces(before) + (seq!['('] + (written(t) + (spaces(end) + seq![
                    ')',
                ]))))) + behind,
                env,
            );
            code.len() > 0 && code.last() is Fail
        }),
{
    let rest = written(t) + (spaces(end) + seq![')']);
    let tail = spaces(before) + (seq!['('] + rest);
    let front = spaces(gap) + (name + tail);
    let s = front + behind;
    let j = gap as int;
    let n = j + name.len();
    let k = n + before;
    assert(s.subrange(0, front.len() as int) =~= front);
    assert(stands(s, 0, front));
    lemma_identifier(name);
    lemma_stands_concat(s, 0, spaces(gap), name + tail);
    lemma_gap(s, 0, gap);
    lemma_stands_concat(s, j, name, tail);
    lemma_stands_at(s, j, name, 0);
    assert(cmd_expr::after_spaces(s, j) == j);
    lemma_stands_concat(s, n, spaces(before), seq!['('] + rest);
    lemma_gap(s, n, before);
    lemma_stands_concat(s, k, seq!['('], rest);
    lemma_stands_at(s, k, seq!['('], 0);
    assert(cmd_expr::after_spaces(s, k) == k);
    assert(!cmd_expr::in_name(s[n])) by {
        if before > 0 {
            lemma_stands_at(s, n, spaces(before), 0);
        }
    }
    lemma_name_ends(s, j, name, 0);
    assert(s.subrange(j, n) == name);
    lemma_reads_inside(t, s, k + 1, end, env);
    lemma_no_function(name);
    let p = cmd_expr::primary(s, 0, env);
    assert(p == cmd_expr::stopped(steps(t, env.vars) + seq![cmd_expr::call_step(name)]));
    assert(cmd_expr::unary(s, 0, env) == p);
    assert(p.code.last() == cmd_expr::call_step(name));
}

proof fn lemma_no_function(name: Seq<char>)
    requires
        forall|f: MathFunction| !has_name(f, name),
    ensures
        cmd_expr::function_named(name) is None,
{
    match cmd_expr::function_named(name) {
        Some(f) => {
            assert(!has_name(f, name));
        },
        None => {},
    }
}

} // verus!
