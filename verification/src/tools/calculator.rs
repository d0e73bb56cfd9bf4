//! The calculator tool: `+ - * /`, unary signs, parentheses, integers and
//! decimals.
//!
//! An expression is compiled into [`Op`]s in the order in which they are evaluated
//! (postfix), followed by the syntax error that stopped the parse, if any. Running
//! the ops in `f64` arithmetic is left to the caller: a division whose divisor
//! evaluates to zero fails with `division by zero`, a syntax error is reported once
//! the ops before it have run, and a result that is not finite fails last.

use vstd::prelude::*;

use crate::error::{is_invalid_args, ToolError};
use crate::json::{entries_model, items_model, Json, JsonValue};
use crate::text::{
    char_is_whitespace, chars_of, is_white_space, substring, trim, trim_end_spec, trim_spec,
    trim_start_spec,
};
use crate::tool::{ToolSchema, ToolSchemaModel};

verus! {

/// The calculator tool. It holds no state.
#[derive(Debug, Default, Clone, Copy, PartialEq, Eq, Structural)]
pub struct Calculator;

/// One step of an evaluation, in postfix order.
#[derive(Debug)]
pub enum Op {
    /// Push a number, given by its text: digits with at most one `.`.
    Number(String),
    /// Negate the top of the stack.
    Neg,
    Add,
    Sub,
    Mul,
    /// Divide; fails when the divisor is zero.
    Div,
}

/// Model of an [`Op`].
pub enum OpModel {
    Number(Seq<char>),
    Neg,
    Add,
    Sub,
    Mul,
    Div,
}

impl View for Op {
    type V = OpModel;

    open spec fn view(&self) -> OpModel {
        match self {
            Op::Number(n) => OpModel::Number(n@),
            Op::Neg => OpModel::Neg,
            Op::Add => OpModel::Add,
            Op::Sub => OpModel::Sub,
            Op::Mul => OpModel::Mul,
            Op::Div => OpModel::Div,
        }
    }
}

/// The models of a sequence of ops.
pub open spec fn ops_view(ops: Seq<Op>) -> Seq<OpModel> {
    ops.map_values(|o: Op| o@)
}

/// What part of a grammar rule yields at a position: the ops it emits, where it
/// stops, and the syntax error that ended it, if any.
pub struct Parsed {
    pub ops: Seq<OpModel>,
    pub end: int,
    pub error: Option<Seq<char>>,
}

/// An ASCII decimal digit.
pub open spec fn is_digit(c: char) -> bool {
    '0' <= c <= '9'
}

/// The first position at or after `i` that holds no white space.
pub open spec fn skip_ws_from(s: Seq<char>, i: int) -> int
    decreases s.len() - i,
{
    if 0 <= i < s.len() && is_white_space(s[i]) {
        skip_ws_from(s, i + 1)
    } else {
        i
    }
}

pub proof fn lemma_skip_ws(s: Seq<char>, i: int)
    requires
        0 <= i <= s.len(),
    ensures
        i <= skip_ws_from(s, i) <= s.len(),
        skip_ws_from(s, i) < s.len() ==> !is_white_space(s[skip_ws_from(s, i)]),
    decreases s.len() - i,
{
    if i < s.len() && is_white_space(s[i]) {
        lemma_skip_ws(s, i + 1);
    }
}

/// How many characters from `i` on form a number: digits, and one `.` unless
/// one was already seen.
pub open spec fn number_len(s: Seq<char>, i: int, seen_dot: bool) -> nat
    decreases s.len() - i,
{
    if 0 <= i < s.len() && (is_digit(s[i]) || (s[i] == '.' && !seen_dot)) {
        1 + number_len(s, i + 1, seen_dot || s[i] == '.')
    } else {
        0
    }
}

pub proof fn lemma_number_len(s: Seq<char>, i: int, seen_dot: bool)
    requires
        0 <= i <= s.len(),
    ensures
        i + number_len(s, i, seen_dot) <= s.len(),
    decreases s.len() - i,
{
    if i < s.len() && (is_digit(s[i]) || (s[i] == '.' && !seen_dot)) {
        lemma_number_len(s, i + 1, seen_dot || s[i] == '.');
    }
}

/// Whether a text holds a digit.
pub open spec fn has_digit(t: Seq<char>) -> bool {
    exists|j: int| 0 <= j < t.len() && is_digit(#[trigger] t[j])
}

/// A number at `i` (after white space): `invalid number` when it has no digit.
pub open spec fn parse_number_at(s: Seq<char>, i: int) -> Parsed {
    let k = skip_ws_from(s, i);
    let n = number_len(s, k, false);
    let text = s.subrange(k, k + n);
    if has_digit(text) {
        Parsed { ops: seq![OpModel::Number(text)], end: k + n, error: None }
    } else {
        Parsed { ops: seq![], end: k + n, error: Some("invalid number"@) }
    }
}

// The grammar, with the rules at a position. A rule that runs on after a sub-rule
// checks that the sub-rule stopped further on in the text: that always holds, and
// writing it down makes the recursion visibly terminate.

/// `expr := term (('+' | '-') term)*`
pub open spec fn parse_expr_at(s: Seq<char>, i: int) -> Parsed
    decreases s.len() - i, 5int,
{
    let t = parse_term_at(s, i);
    if t.error is Some || !(i <= t.end <= s.len()) {
        t
    } else {
        let r = expr_rest_at(s, t.end);
        Parsed { ops: t.ops + r.ops, end: r.end, error: r.error }
    }
}

/// The `(('+' | '-') term)*` tail of an expression, from `j` on.
pub open spec fn expr_rest_at(s: Seq<char>, j: int) -> Parsed
    decreases s.len() - j, 4int,
{
    let k = skip_ws_from(s, j);
    if 0 <= j <= s.len() && k < s.len() && (s[k] == '+' || s[k] == '-') {
        proof {
            lemma_skip_ws(s, j);
        }
        let t = parse_term_at(s, k + 1);
        if t.error is Some || !(k + 1 <= t.end <= s.len()) {
            t
        } else {
            let op = if s[k] == '+' {
                OpModel::Add
            } else {
                OpModel::Sub
            };
            let r = expr_rest_at(s, t.end);
            Parsed { ops: t.ops.push(op) + r.ops, end: r.end, error: r.error }
        }
    } else {
        Parsed { ops: seq![], end: k, error: None }
    }
}

/// `term := factor (('*' | '/') factor)*`
pub open spec fn parse_term_at(s: Seq<char>, i: int) -> Parsed
    decreases s.len() - i, 3int,
{
    let f = parse_factor_at(s, i);
    if f.error is Some || !(i <= f.end <= s.len()) {
        f
    } else {
        let r = term_rest_at(s, f.end);
        Parsed { ops: f.ops + r.ops, end: r.end, error: r.error }
    }
}

/// The `(('*' | '/') factor)*` tail of a term, from `j` on.
pub open spec fn term_rest_at(s: Seq<char>, j: int) -> Parsed
    decreases s.len() - j, 2int,
{
    let k = skip_ws_from(s, j);
    if 0 <= j <= s.len() && k < s.len() && (s[k] == '*' || s[k] == '/') {
        proof {
            lemma_skip_ws(s, j);
        }
        let f = parse_factor_at(s, k + 1);
        if f.error is Some || !(k + 1 <= f.end <= s.len()) {
            f
        } else {
            let op = if s[k] == '*' {
                OpModel::Mul
            } else {
                OpModel::Div
            };
            let r = term_rest_at(s, f.end);
            Parsed { ops: f.ops.push(op) + r.ops, end: r.end, error: r.error }
        }
    } else {
        Parsed { ops: seq![], end: k, error: None }
    }
}

/// `factor := '-' factor | '+' factor | primary`
pub open spec fn parse_factor_at(s: Seq<char>, i: int) -> Parsed
    decreases s.len() - i, 1int,
{
    if !(0 <= i <= s.len()) {
        Parsed { ops: seq![], end: i, error: Some("expected number or '('"@) }
    } else {
        proof {
            lemma_skip_ws(s, i);
        }
        let k = skip_ws_from(s, i);
        if k < s.len() && s[k] == '-' {
            let f = parse_factor_at(s, k + 1);
            if f.error is Some {
                f
            } else {
                Parsed { ops: f.ops.push(OpModel::Neg), end: f.end, error: None }
            }
        } else if k < s.len() && s[k] == '+' {
            parse_factor_at(s, k + 1)
        } else {
            parse_primary_at(s, k)
        }
    }
}

/// `primary := '(' expr ')' | number`
pub open spec fn parse_primary_at(s: Seq<char>, i: int) -> Parsed
    decreases s.len() - i, 0int,
{
    if !(0 <= i <= s.len()) {
        Parsed { ops: seq![], end: i, error: Some("expected number or '('"@) }
    } else {
        proof {
            lemma_skip_ws(s, i);
        }
        let k = skip_ws_from(s, i);
        if k < s.len() && s[k] == '(' {
            let e = parse_expr_at(s, k + 1);
            if e.error is Some {
                e
            } else {
                let m = skip_ws_from(s, e.end);
                if m < s.len() && s[m] == ')' {
                    Parsed { ops: e.ops, end: m + 1, error: None }
                } else {
                    Parsed { ops: e.ops, end: m, error: Some("missing closing parenthesis"@) }
                }
            }
        } else if k < s.len() && (is_digit(s[k]) || s[k] == '.') {
            parse_number_at(s, k)
        } else {
            Parsed { ops: seq![], end: k, error: Some("expected number or '('"@) }
        }
    }
}

/// The ops of a whole expression and the syntax error that stopped it, if any:
/// `unexpected trailing characters` when text is left after the expression.
pub open spec fn compile_spec(s: Seq<char>) -> (Seq<OpModel>, Option<Seq<char>>) {
    let p = parse_expr_at(s, 0);
    if p.error is Some {
        (p.ops, p.error)
    } else if skip_ws_from(s, p.end) < s.len() {
        (p.ops, Some("unexpected trailing characters"@))
    } else {
        (p.ops, None)
    }
}

fn invalid_args(m: &str) -> (e: ToolError)
    ensures
        is_invalid_args(e, m@),
{
    ToolError::InvalidArgs(String::from_str(m))
}

fn is_ascii_digit(c: char) -> (r: bool)
    ensures
        r == is_digit(c),
{
    '0' <= c && c <= '9'
}

/// A rule left to finish once the rule below it on the stack is done.
#[derive(Clone, Copy, PartialEq, Eq, Structural)]
enum Frame {
    /// Emit `Neg` after the factor.
    Neg,
    /// Emit the operator after its right operand.
    Add,
    Sub,
    Mul,
    Div,
    /// Go on with the `(('*' | '/') factor)*` tail of a term.
    TermTail,
    /// Go on with the `(('+' | '-') term)*` tail of an expression.
    ExprTail,
    /// Expect the `)` that closes a parenthesised expression.
    Close,
}

/// What the parser does next: start an expression, start a factor, or finish the
/// rules on the stack.
#[derive(Clone, Copy, PartialEq, Eq, Structural)]
enum Mode {
    Expr,
    Factor,
    Done,
}

/// The op a frame emits.
spec fn frame_op(f: Frame) -> OpModel {
    match f {
        Frame::Neg => OpModel::Neg,
        Frame::Add => OpModel::Add,
        Frame::Sub => OpModel::Sub,
        Frame::Mul => OpModel::Mul,
        _ => OpModel::Div,
    }
}

/// What a frame makes of the result `r` of the rule it waited for.
spec fn after_frame(s: Seq<char>, f: Frame, r: Parsed) -> Parsed {
    match f {
        Frame::TermTail => {
            let t = term_rest_at(s, r.end);
            Parsed { ops: r.ops + t.ops, end: t.end, error: t.error }
        },
        Frame::ExprTail => {
            let t = expr_rest_at(s, r.end);
            Parsed { ops: r.ops + t.ops, end: t.end, error: t.error }
        },
        Frame::Close => {
            let m = skip_ws_from(s, r.end);
            if m < s.len() && s[m] == ')' {
                Parsed { ops: r.ops, end: m + 1, error: None }
            } else {
                Parsed { ops: r.ops, end: m, error: Some("missing closing parenthesis"@) }
            }
        },
        _ => Parsed { ops: r.ops.push(frame_op(f)), end: r.end, error: None },
    }
}

/// The result of the whole parse once the rule on top of the stack gave `r`: the
/// frames finish from the top down, and an error ends everything.
spec fn finish(s: Seq<char>, st: Seq<Frame>, r: Parsed) -> Parsed
    decreases st.len(),
{
    if st.len() == 0 || r.error is Some {
        r
    } else {
        finish(s, st.drop_last(), after_frame(s, st.last(), r))
    }
}

/// The rule a mode starts at `pos`, or what a finished rule gave.
spec fn mode_result(s: Seq<char>, mode: Mode, pos: int) -> Parsed {
    match mode {
        Mode::Expr => parse_expr_at(s, pos),
        Mode::Factor => parse_factor_at(s, pos),
        Mode::Done => Parsed { ops: seq![], end: pos, error: None },
    }
}

spec fn mode_weight(mode: Mode) -> int {
    match mode {
        Mode::Expr => 7,
        _ => 0,
    }
}

/// The rule number `rule` of the grammar at `i`: 5 an expression, 4 its tail,
/// 3 a term, 2 its tail, 1 a factor, 0 a primary.
spec fn rule_at(s: Seq<char>, rule: int, i: int) -> Parsed {
    if rule == 5 {
        parse_expr_at(s, i)
    } else if rule == 4 {
        expr_rest_at(s, i)
    } else if rule == 3 {
        parse_term_at(s, i)
    } else if rule == 2 {
        term_rest_at(s, i)
    } else if rule == 1 {
        parse_factor_at(s, i)
    } else {
        parse_primary_at(s, i)
    }
}

/// A rule that succeeds stops at or after where it started, within the text.
proof fn lemma_rule_ends(s: Seq<char>, rule: int, i: int)
    requires
        0 <= i <= s.len(),
        0 <= rule <= 5,
    ensures
        rule_at(s, rule, i).error is None ==> i <= rule_at(s, rule, i).end <= s.len(),
    decreases s.len() - i, rule,
{
    lemma_skip_ws(s, i);
    let k = skip_ws_from(s, i);
    if rule == 5 {
        lemma_rule_ends(s, 3, i);
        let t = parse_term_at(s, i);
        if t.error is None {
            lemma_rule_ends(s, 4, t.end);
        }
    } else if rule == 4 {
        if k < s.len() && (s[k] == '+' || s[k] == '-') {
            lemma_rule_ends(s, 3, k + 1);
            let t = parse_term_at(s, k + 1);
            if t.error is None {
                lemma_rule_ends(s, 4, t.end);
            }
        }
    } else if rule == 3 {
        lemma_rule_ends(s, 1, i);
        let f = parse_factor_at(s, i);
        if f.error is None {
            lemma_rule_ends(s, 2, f.end);
        }
    } else if rule == 2 {
        if k < s.len() && (s[k] == '*' || s[k] == '/') {
            lemma_rule_ends(s, 1, k + 1);
            let f = parse_factor_at(s, k + 1);
            if f.error is None {
                lemma_rule_ends(s, 2, f.end);
            }
        }
    } else if rule == 1 {
        if k < s.len() && (s[k] == '-' || s[k] == '+') {
            lemma_rule_ends(s, 1, k + 1);
        } else {
            lemma_rule_ends(s, 0, k);
        }
    } else {
        if k < s.len() && s[k] == '(' {
            lemma_rule_ends(s, 5, k + 1);
            let e = parse_expr_at(s, k + 1);
            if e.error is None {
                lemma_skip_ws(s, e.end);
            }
        } else if k < s.len() && (is_digit(s[k]) || s[k] == '.') {
            lemma_skip_ws(s, k);
            lemma_number_len(s, skip_ws_from(s, k), false);
        }
    }
}

/// Ops emitted before the rest of the parse come first in its result.
proof fn lemma_finish_prefix(s: Seq<char>, st: Seq<Frame>, x: Seq<OpModel>, r: Parsed)
    ensures
        finish(s, st, Parsed { ops: x + r.ops, end: r.end, error: r.error }).ops == x + finish(
            s,
            st,
            r,
        ).ops,
        finish(s, st, Parsed { ops: x + r.ops, end: r.end, error: r.error }).end == finish(
            s,
            st,
            r,
        ).end,
        finish(s, st, Parsed { ops: x + r.ops, end: r.end, error: r.error }).error == finish(
            s,
            st,
            r,
        ).error,
    decreases st.len(),
{
    let rx = Parsed { ops: x + r.ops, end: r.end, error: r.error };
    if st.len() == 0 || r.error is Some {
    } else {
        let f = st.last();
        let a = after_frame(s, f, r);
        let ax = after_frame(s, f, rx);
        match f {
            Frame::TermTail => {
                assert((x + r.ops) + term_rest_at(s, r.end).ops =~= x + (r.ops + term_rest_at(
                    s,
                    r.end,
                ).ops));
            },
            Frame::ExprTail => {
                assert((x + r.ops) + expr_rest_at(s, r.end).ops =~= x + (r.ops + expr_rest_at(
                    s,
                    r.end,
                ).ops));
            },
            Frame::Close => {},
            _ => {
                assert((x + r.ops).push(frame_op(f)) =~= x + r.ops.push(frame_op(f)));
            },
        }
        assert(ax == (Parsed { ops: x + a.ops, end: a.end, error: a.error }));
        lemma_finish_prefix(s, st.drop_last(), x, a);
    }
}

/// Finishing with one more frame on the stack: the frame takes a success, and an
/// error ends everything.
proof fn lemma_finish_step(s: Seq<char>, st: Seq<Frame>, f: Frame, r: Parsed)
    ensures
        r.error is None ==> finish(s, st.push(f), r) == finish(s, st, after_frame(s, f, r)),
        r.error is Some ==> finish(s, st.push(f), r) == r,
        r.error is Some ==> finish(s, st, r) == r,
{
    assert(st.push(f).drop_last() =~= st);
    assert(st.push(f).last() == f);
}

/// A term is a factor followed by the term's tail.
proof fn lemma_term_frames(s: Seq<char>, st: Seq<Frame>, i: int)
    requires
        0 <= i <= s.len(),
    ensures
        finish(s, st.push(Frame::TermTail), parse_factor_at(s, i)) == finish(s, st, parse_term_at(s, i)),
{
    lemma_rule_ends(s, 1, i);
    assert(st.push(Frame::TermTail).drop_last() =~= st);
}

/// An expression is a term followed by the expression's tail.
proof fn lemma_expr_frames(s: Seq<char>, st: Seq<Frame>, i: int)
    requires
        0 <= i <= s.len(),
    ensures
        finish(s, st.push(Frame::ExprTail).push(Frame::TermTail), parse_factor_at(s, i)) == finish(
            s,
            st,
            parse_expr_at(s, i),
        ),
{
    lemma_term_frames(s, st.push(Frame::ExprTail), i);
    lemma_rule_ends(s, 3, i);
    assert(st.push(Frame::ExprTail).drop_last() =~= st);
}

/// A factor that starts with `-` is a factor followed by `Neg`.
proof fn lemma_factor_neg(s: Seq<char>, st: Seq<Frame>, i: int)
    requires
        0 <= i <= s.len(),
        skip_ws_from(s, i) < s.len(),
        s[skip_ws_from(s, i)] == '-',
    ensures
        finish(s, st.push(Frame::Neg), parse_factor_at(s, skip_ws_from(s, i) + 1)) == finish(
            s,
            st,
            parse_factor_at(s, i),
        ),
{
    assert(st.push(Frame::Neg).drop_last() =~= st);
}

/// A factor that starts with `(` is an expression followed by `)`.
proof fn lemma_factor_paren(s: Seq<char>, st: Seq<Frame>, i: int)
    requires
        0 <= i <= s.len(),
        skip_ws_from(s, i) < s.len(),
        s[skip_ws_from(s, i)] == '(',
    ensures
        finish(s, st.push(Frame::Close), parse_expr_at(s, skip_ws_from(s, i) + 1)) == finish(
            s,
            st,
            parse_factor_at(s, i),
        ),
{
    lemma_skip_ws(s, i);
    let k = skip_ws_from(s, i);
    assert(skip_ws_from(s, k) == k);
    assert(parse_factor_at(s, i) == parse_primary_at(s, k));
    let e = parse_expr_at(s, k + 1);
    lemma_finish_step(s, st, Frame::Close, e);
    if e.error is None {
        let m = skip_ws_from(s, e.end);
        if m < s.len() && s[m] == ')' {
            assert(parse_primary_at(s, k) == (Parsed { ops: e.ops, end: m + 1, error: None }));
        } else {
            assert(parse_primary_at(s, k) == (Parsed {
                ops: e.ops,
                end: m,
                error: Some("missing closing parenthesis"@),
            }));
        }
    } else {
        assert(parse_primary_at(s, k) == e);
    }
}

/// A factor that starts with neither sign nor `(` is a primary there.
proof fn lemma_factor_primary(s: Seq<char>, i: int)
    requires
        0 <= i <= s.len(),
        !(skip_ws_from(s, i) < s.len() && (s[skip_ws_from(s, i)] == '-' || s[skip_ws_from(s, i)]
            == '+' || s[skip_ws_from(s, i)] == '(')),
    ensures
        parse_factor_at(s, i) == (if skip_ws_from(s, i) < s.len() && (is_digit(
            s[skip_ws_from(s, i)],
        ) || s[skip_ws_from(s, i)] == '.') {
            parse_number_at(s, skip_ws_from(s, i))
        } else {
            Parsed {
                ops: seq![],
                end: skip_ws_from(s, i),
                error: Some("expected number or '('"@),
            }
        }),
{
    lemma_skip_ws(s, i);
    let k = skip_ws_from(s, i);
    assert(skip_ws_from(s, k) == k);
    assert(parse_factor_at(s, i) == parse_primary_at(s, k));
}

/// A term's tail that goes on with `*` or `/` is a factor, the operator, and the
/// tail again.
proof fn lemma_term_tail_more(s: Seq<char>, rest: Seq<Frame>, j: int)
    requires
        0 <= j <= s.len(),
        skip_ws_from(s, j) < s.len(),
        s[skip_ws_from(s, j)] == '*' || s[skip_ws_from(s, j)] == '/',
    ensures
        finish(
            s,
            rest.push(Frame::TermTail).push(
                if s[skip_ws_from(s, j)] == '*' {
                    Frame::Mul
                } else {
                    Frame::Div
                },
            ),
            parse_factor_at(s, skip_ws_from(s, j) + 1),
        ) == finish(
            s,
            rest.push(Frame::TermTail),
            Parsed { ops: seq![], end: j, error: None },
        ),
{
    lemma_skip_ws(s, j);
    let k = skip_ws_from(s, j);
    let op = if s[k] == '*' { Frame::Mul } else { Frame::Div };
    let st = rest.push(Frame::TermTail);
    lemma_rule_ends(s, 1, k + 1);
    let f = parse_factor_at(s, k + 1);
    let r0 = Parsed { ops: seq![], end: j, error: None };
    lemma_finish_step(s, rest, Frame::TermTail, r0);
    let tr = term_rest_at(s, j);
    let a0 = after_frame(s, Frame::TermTail, r0);
    lemma_finish_step(s, st, op, f);
    if f.error is None {
        let t = term_rest_at(s, f.end);
        let fo = after_frame(s, op, f);
        assert(fo == (Parsed { ops: f.ops.push(frame_op(op)), end: f.end, error: None }));
        lemma_finish_step(s, rest, Frame::TermTail, fo);
        assert(tr == (Parsed { ops: f.ops.push(frame_op(op)) + t.ops, end: t.end, error: t.error }));
        assert(seq![] + (f.ops.push(frame_op(op)) + t.ops) =~= f.ops.push(frame_op(op)) + t.ops);
        assert(a0 == after_frame(s, Frame::TermTail, fo));
    } else {
        assert(tr == f);
        assert(seq![] + f.ops =~= f.ops);
        assert(a0 == f);
        lemma_finish_step(s, rest, Frame::TermTail, f);
    }
}

/// An expression's tail that goes on with `+` or `-` is a term, the operator, and
/// the tail again.
proof fn lemma_expr_tail_more(s: Seq<char>, rest: Seq<Frame>, j: int)
    requires
        0 <= j <= s.len(),
        skip_ws_from(s, j) < s.len(),
        s[skip_ws_from(s, j)] == '+' || s[skip_ws_from(s, j)] == '-',
    ensures
        finish(
            s,
            rest.push(Frame::ExprTail).push(
                if s[skip_ws_from(s, j)] == '+' {
                    Frame::Add
                } else {
                    Frame::Sub
                },
            ).push(Frame::TermTail),
            parse_factor_at(s, skip_ws_from(s, j) + 1),
        ) == finish(
            s,
            rest.push(Frame::ExprTail),
            Parsed { ops: seq![], end: j, error: None },
        ),
{
    lemma_skip_ws(s, j);
    let k = skip_ws_from(s, j);
    let op = if s[k] == '+' { Frame::Add } else { Frame::Sub };
    let st = rest.push(Frame::ExprTail);
    lemma_term_frames(s, st.push(op), k + 1);
    lemma_rule_ends(s, 3, k + 1);
    let t = parse_term_at(s, k + 1);
    let r0 = Parsed { ops: seq![], end: j, error: None };
    lemma_finish_step(s, rest, Frame::ExprTail, r0);
    let er = expr_rest_at(s, j);
    let a0 = after_frame(s, Frame::ExprTail, r0);
    lemma_finish_step(s, st, op, t);
    if t.error is None {
        let r = expr_rest_at(s, t.end);
        let to = after_frame(s, op, t);
        assert(to == (Parsed { ops: t.ops.push(frame_op(op)), end: t.end, error: None }));
        lemma_finish_step(s, rest, Frame::ExprTail, to);
        assert(er == (Parsed { ops: t.ops.push(frame_op(op)) + r.ops, end: r.end, error: r.error }));
        assert(seq![] + (t.ops.push(frame_op(op)) + r.ops) =~= t.ops.push(frame_op(op)) + r.ops);
        assert(a0 == after_frame(s, Frame::ExprTail, to));
    } else {
        assert(er == t);
        assert(seq![] + t.ops =~= t.ops);
        assert(a0 == t);
        lemma_finish_step(s, rest, Frame::ExprTail, t);
    }
}

/// Parser over the characters of an expression.
struct Parser {
    chars: Vec<char>,
    pos: usize,
    ops: Vec<Op>,
}

/// `after` is `before` once a rule that yields `p` has run: the text is kept, the
/// rule's ops are appended, and the outcome is the rule's.
spec fn follows(before: Parser, after: Parser, r: Result<(), ToolError>, p: Parsed) -> bool {
    &&& after.chars@ == before.chars@
    &&& ops_view(after.ops@) == ops_view(before.ops@) + p.ops
    &&& match r {
        Ok(()) => {
            &&& p.error is None
            &&& after.pos == p.end
            &&& before.pos <= p.end <= before.chars@.len()
        },
        Err(e) => p.error matches Some(m) && is_invalid_args(e, m),
    }
}

impl Parser {
    fn new(input: &str) -> (p: Parser)
        ensures
            p.chars@ == input@,
            p.pos == 0,
            p.ops@.len() == 0,
    {
        Parser { chars: chars_of(input), pos: 0, ops: Vec::new() }
    }

    fn peek_char(&self) -> (r: Option<char>)
        ensures
            r == (if self.pos < self.chars@.len() {
                Some(self.chars@[self.pos as int])
            } else {
                None::<char>
            }),
    {
        if self.pos < self.chars.len() {
            Some(self.chars[self.pos])
        } else {
            None
        }
    }

    fn next_char(&mut self) -> (r: Option<char>)
        ensures
            final(self).chars == old(self).chars,
            final(self).ops == old(self).ops,
            old(self).pos < old(self).chars@.len() ==> r == Some(old(self).chars@[old(self).pos as int])
                && final(self).pos == old(self).pos + 1,
            old(self).pos >= old(self).chars@.len() ==> r is None && final(self).pos == old(self).pos,
    {
        if self.pos < self.chars.len() {
            let c = self.chars[self.pos];
            self.pos = self.pos + 1;
            Some(c)
        } else {
            None
        }
    }

    fn skip_ws(&mut self)
        requires
            old(self).pos <= old(self).chars@.len(),
        ensures
            final(self).chars == old(self).chars,
            final(self).ops == old(self).ops,
            final(self).pos == skip_ws_from(old(self).chars@, old(self).pos as int),
    {
        let ghost s = self.chars@;
        while self.pos < self.chars.len() && char_is_whitespace(self.chars[self.pos])
            invariant
                self.chars@ == s,
                self.chars == old(self).chars,
                self.ops == old(self).ops,
                self.pos <= s.len(),
                skip_ws_from(s, old(self).pos as int) == skip_ws_from(s, self.pos as int),
            decreases s.len() - self.pos,
        {
            self.pos = self.pos + 1;
        }
    }

    fn push_op(&mut self, op: Op)
        ensures
            final(self).chars == old(self).chars,
            final(self).pos == old(self).pos,
            ops_view(final(self).ops@) == ops_view(old(self).ops@).push(op@),
    {
        self.ops.push(op);
        assert(ops_view(self.ops@) =~= ops_view(old(self).ops@).push(op@));
    }

    fn parse_number(&mut self) -> (r: Result<(), ToolError>)
        requires
            old(self).pos <= old(self).chars@.len(),
        ensures
            follows(*old(self), *final(self), r, parse_number_at(old(self).chars@, old(self).pos as int)),
    {
        let ghost s = self.chars@;
        self.skip_ws();
        let start = self.pos;
        proof {
            lemma_skip_ws(s, old(self).pos as int);
            lemma_number_len(s, start as int, false);
        }
        let mut has_dot = false;
        let mut has_digit_seen = false;
        while self.pos < self.chars.len() && (is_ascii_digit(self.chars[self.pos]) || (
        self.chars[self.pos] == '.' && !has_dot))
            invariant
                self.chars@ == s,
                self.chars == old(self).chars,
                self.ops == old(self).ops,
                start <= self.pos <= s.len(),
                number_len(s, start as int, false) == (self.pos - start) + number_len(
                    s,
                    self.pos as int,
                    has_dot,
                ),
                has_digit_seen == has_digit(s.subrange(start as int, self.pos as int)),
            decreases s.len() - self.pos,
        {
            let ghost before = s.subrange(start as int, self.pos as int);
            let c = self.chars[self.pos];
            if is_ascii_digit(c) {
                has_digit_seen = true;
            } else {
                has_dot = true;
            }
            assert(s.subrange(start as int, self.pos + 1) =~= before.push(c));
            assert(has_digit_seen == has_digit(before.push(c))) by {
                if is_digit(c) {
                    assert(before.push(c)[before.len() as int] == c);
                } else {
                    assert forall|j: int| 0 <= j < before.push(c).len() && is_digit(
                        #[trigger] before.push(c)[j],
                    ) implies has_digit(before) by {
                        assert(before.push(c)[j] == before[j]);
                    }
                }
            }
            self.pos = self.pos + 1;
        }
        assert(number_len(s, self.pos as int, has_dot) == 0);
        assert(skip_ws_from(s, old(self).pos as int) == start);
        if !has_digit_seen {
            assert(ops_view(self.ops@) =~= ops_view(old(self).ops@) + seq![]);
            return Err(invalid_args("invalid number"));
        }
        let text = substring(self.chars.as_slice(), start, self.pos);
        let ghost n = OpModel::Number(text@);
        self.push_op(Op::Number(text));
        assert(ops_view(self.ops@) =~= ops_view(old(self).ops@) + seq![n]);
        Ok(())
    }

    /// Parses an expression from the current position. The parser keeps its own
    /// stack of the rules left to finish, so nesting depth costs heap, not call
    /// stack.
    fn parse_expr(&mut self) -> (r: Result<(), ToolError>)
        requires
            old(self).pos <= old(self).chars@.len(),
        ensures
            follows(*old(self), *final(self), r, parse_expr_at(old(self).chars@, old(self).pos as int)),
    {
        let ghost s = self.chars@;
        let ghost i0 = self.pos as int;
        let ghost base = ops_view(self.ops@);
        let ghost whole = parse_expr_at(s, i0);
        let mut stack: Vec<Frame> = Vec::new();
        let mut mode = Mode::Expr;
        assert(ops_view(self.ops@) + finish(s, stack@, mode_result(s, mode, self.pos as int)).ops
            =~= base + whole.ops);
        loop
            invariant
                self.chars@ == s,
                self.chars@.len() == s.len(),
                i0 <= self.pos <= s.len(),
                s == old(self).chars@,
                i0 == old(self).pos,
                base == ops_view(old(self).ops@),
                whole == parse_expr_at(s, i0),
                ops_view(self.ops@) + finish(s, stack@, mode_result(s, mode, self.pos as int)).ops
                    == base + whole.ops,
                finish(s, stack@, mode_result(s, mode, self.pos as int)).end == whole.end,
                finish(s, stack@, mode_result(s, mode, self.pos as int)).error == whole.error,
            decreases s.len() - self.pos, 3 * stack@.len() + mode_weight(mode),
        {
            let ghost j = self.pos as int;
            let ghost st = stack@;
            let ghost ops0 = ops_view(self.ops@);
            match mode {
                Mode::Expr => {
                    proof {
                        lemma_expr_frames(s, st, j);
                    }
                    stack.push(Frame::ExprTail);
                    stack.push(Frame::TermTail);
                    mode = Mode::Factor;
                },
                Mode::Factor => {
                    proof {
                        lemma_skip_ws(s, j);
                    }
                    self.skip_ws();
                    let ghost k = self.pos as int;
                    let c = self.peek_char();
                    if c == Some('-') {
                        proof {
                            lemma_factor_neg(s, st, j);
                        }
                        self.next_char();
                        stack.push(Frame::Neg);
                    } else if c == Some('+') {
                        self.next_char();
                    } else if c == Some('(') {
                        proof {
                            lemma_factor_paren(s, st, j);
                        }
                        self.next_char();
                        stack.push(Frame::Close);
                        mode = Mode::Expr;
                    } else {
                        proof {
                            lemma_factor_primary(s, j);
                        }
                        match c {
                            Some(ch) => {
                                if is_ascii_digit(ch) || ch == '.' {
                                    proof {
                                        lemma_number_len(s, k, false);
                                        lemma_skip_ws(s, k);
                                    }
                                    match self.parse_number() {
                                        Err(e) => {
                                            assert(ops_view(self.ops@) =~= base + whole.ops);
                                            return Err(e);
                                        },
                                        Ok(()) => {},
                                    }
                                    proof {
                                        let n = parse_number_at(s, k);
                                        lemma_finish_prefix(
                                            s,
                                            st,
                                            n.ops,
                                            Parsed { ops: seq![], end: n.end, error: None },
                                        );
                                        assert(n.ops + seq![] =~= n.ops);
                                        assert(ops_view(self.ops@) == ops0 + n.ops);
                                        assert(ops0 + (n.ops + finish(
                                            s,
                                            st,
                                            Parsed { ops: seq![], end: n.end, error: None },
                                        ).ops) =~= ops_view(self.ops@) + finish(
                                            s,
                                            st,
                                            Parsed { ops: seq![], end: n.end, error: None },
                                        ).ops);
                                    }
                                    mode = Mode::Done;
                                } else {
                                    assert(ops_view(self.ops@) =~= base + whole.ops);
                                    return Err(invalid_args("expected number or '('"));
                                }
                            },
                            None => {
                                assert(ops_view(self.ops@) =~= base + whole.ops);
                                return Err(invalid_args("expected number or '('"));
                            },
                        }
                    }
                },
                Mode::Done => {
                    if stack.len() == 0 {
                        assert(ops_view(self.ops@) =~= base + whole.ops);
                        return Ok(());
                    }
                    let f = match stack.pop() {
                        Some(f) => f,
                        None => {
                            return vstd::pervasive::unreached();
                        },
                    };
                    let ghost rest = stack@;
                    assert(st == rest.push(f));
                    assert(st.drop_last() =~= rest);
                    let ghost r0 = Parsed { ops: seq![], end: j, error: None };
                    match f {
                        Frame::TermTail => {
                            proof {
                                lemma_skip_ws(s, j);
                            }
                            self.skip_ws();
                            let c = self.peek_char();
                            if c == Some('*') || c == Some('/') {
                                proof {
                                    lemma_term_tail_more(s, rest, j);
                                }
                                self.next_char();
                                stack.push(Frame::TermTail);
                                if c == Some('*') {
                                    stack.push(Frame::Mul);
                                } else {
                                    stack.push(Frame::Div);
                                }
                                mode = Mode::Factor;
                            } else {
                                assert(term_rest_at(s, j) == (Parsed {
                                    ops: seq![],
                                    end: self.pos as int,
                                    error: None,
                                }));
                                assert(after_frame(s, f, r0) == (Parsed {
                                    ops: seq![],
                                    end: self.pos as int,
                                    error: None,
                                })) by {
                                    assert(seq![] + seq![] =~= Seq::<OpModel>::empty());
                                }
                            }
                        },
                        Frame::ExprTail => {
                            proof {
                                lemma_skip_ws(s, j);
                            }
                            self.skip_ws();
                            let c = self.peek_char();
                            if c == Some('+') || c == Some('-') {
                                proof {
                                    lemma_expr_tail_more(s, rest, j);
                                }
                                self.next_char();
                                stack.push(Frame::ExprTail);
                                if c == Some('+') {
                                    stack.push(Frame::Add);
                                } else {
                                    stack.push(Frame::Sub);
                                }
                                stack.push(Frame::TermTail);
                                mode = Mode::Factor;
                            } else {
                                assert(expr_rest_at(s, j) == (Parsed {
                                    ops: seq![],
                                    end: self.pos as int,
                                    error: None,
                                }));
                                assert(after_frame(s, f, r0) == (Parsed {
                                    ops: seq![],
                                    end: self.pos as int,
                                    error: None,
                                })) by {
                                    assert(seq![] + seq![] =~= Seq::<OpModel>::empty());
                                }
                            }
                        },
                        Frame::Close => {
                            proof {
                                lemma_skip_ws(s, j);
                            }
                            self.skip_ws();
                            match self.next_char() {
                                Some(')') => {},
                                _ => {
                                    assert(ops_view(self.ops@) =~= base + whole.ops);
                                    return Err(invalid_args("missing closing parenthesis"));
                                },
                            }
                        },
                        _ => {
                            let op = match f {
                                Frame::Neg => Op::Neg,
                                Frame::Add => Op::Add,
                                Frame::Sub => Op::Sub,
                                Frame::Mul => Op::Mul,
                                _ => Op::Div,
                            };
                            assert(op@ == frame_op(f));
                            self.push_op(op);
                            proof {
                                lemma_finish_prefix(s, rest, seq![frame_op(f)], r0);
                                assert(seq![frame_op(f)] + r0.ops =~= r0.ops.push(frame_op(f)));
                                assert(ops0 + (seq![frame_op(f)] + finish(s, rest, r0).ops)
                                    =~= ops_view(self.ops@) + finish(s, rest, r0).ops);
                            }
                        },
                    }
                },
            }
        }
    }

    fn expect_end(&mut self) -> (r: Result<(), ToolError>)
        requires
            old(self).pos <= old(self).chars@.len(),
        ensures
            final(self).chars == old(self).chars,
            final(self).ops == old(self).ops,
            match r {
                Ok(()) => skip_ws_from(old(self).chars@, old(self).pos as int)
                    >= old(self).chars@.len(),
                Err(e) => skip_ws_from(old(self).chars@, old(self).pos as int)
                    < old(self).chars@.len() && is_invalid_args(
                    e,
                    "unexpected trailing characters"@,
                ),
            },
    {
        self.skip_ws();
        if self.peek_char().is_some() {
            return Err(invalid_args("unexpected trailing characters"));
        }
        Ok(())
    }
}

/// A compiled expression: the ops to run, in order, then the syntax error that
/// stopped the parse, if any.
#[derive(Debug)]
pub struct Program {
    pub ops: Vec<Op>,
    pub error: Option<ToolError>,
}

/// Whether a program holds the ops and the error of `c`.
pub open spec fn program_is(p: Program, c: (Seq<OpModel>, Option<Seq<char>>)) -> bool {
    &&& ops_view(p.ops@) == c.0
    &&& match p.error {
        None => c.1 is None,
        Some(e) => c.1 matches Some(m) && is_invalid_args(e, m),
    }
}

/// Compiles an expression into the ops that evaluate it.
pub fn compile(expr: &str) -> (p: Program)
    ensures
        program_is(p, compile_spec(expr@)),
{
    let mut parser = Parser::new(expr);
    assert(ops_view(parser.ops@) =~= Seq::<OpModel>::empty());
    let error = match parser.parse_expr() {
        Err(e) => Some(e),
        Ok(()) => match parser.expect_end() {
            Err(e) => Some(e),
            Ok(()) => None,
        },
    };
    assert(ops_view(parser.ops@) =~= compile_spec(expr@).0);
    Program { ops: parser.ops, error }
}

/// Characters an expression may hold: digits, `.`, operators, parentheses and
/// white space.
pub open spec fn is_allowed(c: char) -> bool {
    is_digit(c) || c == '+' || c == '-' || c == '*' || c == '/' || c == '(' || c == ')' || c == '.'
        || is_white_space(c)
}

/// The first character of `s` that an expression may not hold.
pub open spec fn first_disallowed(s: Seq<char>) -> Option<char>
    decreases s.len(),
{
    if s.len() == 0 {
        None
    } else if !is_allowed(s[0]) {
        Some(s[0])
    } else {
        first_disallowed(s.drop_first())
    }
}

/// How `char`'s `Debug` prints a character: quoted, with escapes.
pub uninterp spec fn char_debug_text(c: char) -> Seq<char>;

/// `format!("{c:?}")` on a `char`.
#[verifier::external_body]
fn char_debug(c: char) -> (r: String)
    ensures
        r@ == char_debug_text(c),
{
    format!("{c:?}")
}

/// Refuses an expression holding a character other than digits, `.`, operators,
/// parentheses and white space, naming the first such character.
pub fn validate_chars(expr: &str) -> (r: Result<(), ToolError>)
    ensures
        match r {
            Ok(()) => first_disallowed(expr@) is None,
            Err(e) => first_disallowed(expr@) matches Some(c) && is_invalid_args(
                e,
                "invalid character in expression: "@ + char_debug_text(c),
            ),
        },
{
    let chars = chars_of(expr);
    let mut i: usize = 0;
    assert(expr@.skip(0) =~= expr@);
    while i < chars.len()
        invariant
            i <= chars@.len(),
            chars@ == expr@,
            first_disallowed(expr@) == first_disallowed(expr@.skip(i as int)),
        decreases chars@.len() - i,
    {
        assert(expr@.skip(i as int)[0] == chars@[i as int]);
        assert(expr@.skip(i as int).drop_first() =~= expr@.skip(i + 1));
        let c = chars[i];
        let allowed = is_ascii_digit(c) || c == '+' || c == '-' || c == '*' || c == '/' || c == '('
            || c == ')' || c == '.' || char_is_whitespace(c);
        if !allowed {
            let mut m = String::from_str("invalid character in expression: ");
            let d = char_debug(c);
            m.append(d.as_str());
            return Err(ToolError::InvalidArgs(m));
        }
        i = i + 1;
    }
    assert(expr@.skip(i as int).len() == 0);
    Ok(())
}

/// The expression a call asks for, trimmed, or the message of the invalid-arguments
/// error that refuses the call.
pub open spec fn checked_expression(args: Json) -> Result<Seq<char>, Seq<char>> {
    match args.str_field("expression"@) {
        None => Err("missing required field: expression"@),
        Some(raw) => {
            let t = trim_spec(raw);
            if t.len() == 0 {
                Err("empty expression"@)
            } else {
                match first_disallowed(t) {
                    Some(c) => Err("invalid character in expression: "@ + char_debug_text(c)),
                    None => Ok(t),
                }
            }
        },
    }
}

/// The parameters schema of the calculator.
pub open spec fn calculator_parameters() -> Json {
    Json::Object(
        seq![
            ("type"@, Json::Str("object"@)),
            (
                "properties"@,
                Json::Object(
                    seq![
                        (
                            "expression"@,
                            Json::Object(
                                seq![
                                    ("type"@, Json::Str("string"@)),
                                    (
                                        "description"@,
                                        Json::Str(
                                            "Arithmetic expression to evaluate, e.g. \"1+2*3\" or \"(10-4)/2\""@,
                                        ),
                                    ),
                                ],
                            ),
                        ),
                    ],
                ),
            ),
            ("required"@, Json::Array(seq![Json::Str("expression"@)])),
        ],
    )
}

impl Calculator {
    /// The declaration handed to the model: `calculator`, taking an `expression`.
    pub fn schema(&self) -> (r: ToolSchema)
        ensures
            r@ == (ToolSchemaModel {
                name: "calculator"@,
                description: "Evaluate a basic arithmetic expression (+, -, *, /, parentheses)."@,
                parameters: calculator_parameters(),
            }),
    {
        let ghost desc = "Arithmetic expression to evaluate, e.g. \"1+2*3\" or \"(10-4)/2\""@;
        let expression_entries = vec![
            JsonValue::entry("type", JsonValue::string("string")),
            JsonValue::entry(
                "description",
                JsonValue::string(
                    "Arithmetic expression to evaluate, e.g. \"1+2*3\" or \"(10-4)/2\"",
                ),
            ),
        ];
        assert(entries_model(expression_entries@) =~= seq![
            ("type"@, Json::Str("string"@)),
            ("description"@, Json::Str(desc)),
        ]);
        let expression = JsonValue::object(expression_entries);
        let property_entries = vec![JsonValue::entry("expression", expression)];
        assert(entries_model(property_entries@) =~= seq![("expression"@, expression@)]);
        let properties = JsonValue::object(property_entries);
        let required_items = vec![JsonValue::string("expression")];
        assert(items_model(required_items@) =~= seq![Json::Str("expression"@)]);
        let required = JsonValue::array(required_items);
        let parameter_entries = vec![
            JsonValue::entry("type", JsonValue::string("object")),
            JsonValue::entry("properties", properties),
            JsonValue::entry("required", required),
        ];
        assert(entries_model(parameter_entries@) =~= seq![
            ("type"@, Json::Str("object"@)),
            ("properties"@, properties@),
            ("required"@, required@),
        ]);
        let parameters = JsonValue::object(parameter_entries);
        ToolSchema {
            name: String::from_str("calculator"),
            description: String::from_str(
                "Evaluate a basic arithmetic expression (+, -, *, /, parentheses).",
            ),
            parameters,
        }
    }

    /// Checks the arguments of a call and compiles its expression: the
    /// `expression` field must be a string that, trimmed, is not empty and holds
    /// only digits, `.`, operators, parentheses and white space.
    pub fn compile(&self, args: &JsonValue) -> (r: Result<Program, ToolError>)
        ensures
            match r {
                Ok(p) => checked_expression(args@) matches Ok(t) && program_is(p, compile_spec(t)),
                Err(e) => checked_expression(args@) matches Err(m) && is_invalid_args(e, m),
            },
    {
        let raw = match args.get_str("expression") {
            Some(raw) => raw,
            None => {
                return Err(invalid_args("missing required field: expression"));
            },
        };
        let expr = trim(raw);
        if expr.as_str().is_empty() {
            return Err(invalid_args("empty expression"));
        }
        match validate_chars(expr.as_str()) {
            Err(e) => {
                return Err(e);
            },
            Ok(()) => {},
        }
        Ok(compile(expr.as_str()))
    }
}

/// A binary operator of an expression tree.
pub enum BinOp {
    Add,
    Sub,
    Mul,
    Div,
}

/// An arithmetic expression as a tree: a number given by its digits, a negation,
/// or an operator applied to two operands.
pub enum ExprTree {
    Num(Seq<char>),
    Neg(Box<ExprTree>),
    Bin(BinOp, Box<ExprTree>, Box<ExprTree>),
}

/// The character of an operator.
pub open spec fn op_char(op: BinOp) -> char {
    match op {
        BinOp::Add => '+',
        BinOp::Sub => '-',
        BinOp::Mul => '*',
        BinOp::Div => '/',
    }
}

/// The op that applies an operator.
pub open spec fn op_step(op: BinOp) -> OpModel {
    match op {
        BinOp::Add => OpModel::Add,
        BinOp::Sub => OpModel::Sub,
        BinOp::Mul => OpModel::Mul,
        BinOp::Div => OpModel::Div,
    }
}

/// Every number of the tree is a non-empty run of digits.
pub open spec fn well_formed(t: ExprTree) -> bool
    decreases t,
{
    match t {
        ExprTree::Num(d) => d.len() > 0 && forall|j: int| 0 <= j < d.len() ==> is_digit(#[trigger] d[j]),
        ExprTree::Neg(a) => well_formed(*a),
        ExprTree::Bin(_, a, b) => well_formed(*a) && well_formed(*b),
    }
}

/// The tree written out: a negation as `-` before its operand, an operator
/// application in parentheses.
pub open spec fn render(t: ExprTree) -> Seq<char>
    decreases t,
{
    match t {
        ExprTree::Num(d) => d,
        ExprTree::Neg(a) => seq!['-'] + render(*a),
        ExprTree::Bin(op, a, b) => seq!['('] + render(*a) + seq![op_char(op)] + render(*b) + seq![')'],
    }
}

/// The ops that evaluate the tree, in postfix order.
pub open spec fn postfix(t: ExprTree) -> Seq<OpModel>
    decreases t,
{
    match t {
        ExprTree::Num(d) => seq![OpModel::Number(d)],
        ExprTree::Neg(a) => postfix(*a).push(OpModel::Neg),
        ExprTree::Bin(op, a, b) => postfix(*a) + postfix(*b).push(op_step(op)),
    }
}

/// Position `e` ends an operand: the text ends there, or an operator or `)`
/// follows.
pub open spec fn ends_operand(s: Seq<char>, e: int) -> bool {
    e == s.len() || (0 <= e < s.len() && (s[e] == '+' || s[e] == '-' || s[e] == '*' || s[e]
        == '/' || s[e] == ')'))
}

proof fn lemma_number_digits(s: Seq<char>, i: int, len: int)
    requires
        0 <= i,
        0 <= len,
        i + len <= s.len(),
        forall|j: int| i <= j < i + len ==> is_digit(#[trigger] s[j]),
        ends_operand(s, i + len),
    ensures
        number_len(s, i, false) == len,
    decreases len,
{
    if len > 0 {
        lemma_number_digits(s, i + 1, len - 1);
    }
}

proof fn lemma_render_nonempty(t: ExprTree)
    requires
        well_formed(t),
    ensures
        render(t).len() > 0,
        render(t)[0] == '-' || render(t)[0] == '(' || is_digit(render(t)[0]),
    decreases t,
{
    match t {
        ExprTree::Num(d) => {},
        ExprTree::Neg(a) => {},
        ExprTree::Bin(_, a, b) => {},
    }
}

/// A written-out tree at position `i`, ended as an operand, is one factor: it
/// yields the tree's postfix ops and stops right after it.
#[verifier::spinoff_prover]
#[verifier::rlimit(40)]
proof fn lemma_factor_render(s: Seq<char>, i: int, t: ExprTree)
    requires
        well_formed(t),
        0 <= i,
        i + render(t).len() <= s.len(),
        s.subrange(i, i + render(t).len()) == render(t),
        ends_operand(s, i + render(t).len()),
    ensures
        parse_factor_at(s, i) == (Parsed { ops: postfix(t), end: i + render(t).len(), error: None }),
    decreases t,
{
    let r = render(t);
    let n = r.len() as int;
    assert(s[i] == r[0]);
    lemma_render_nonempty(t);
    assert(skip_ws_from(s, i) == i);
    match t {
        ExprTree::Num(d) => {
            assert forall|j: int| i <= j < i + n implies is_digit(#[trigger] s[j]) by {
                assert(s[j] == s.subrange(i, i + n)[j - i]);
            }
            lemma_number_digits(s, i, n);
            assert(s.subrange(i, i + n) =~= d);
            assert(has_digit(d)) by {
                assert(is_digit(d[0]));
            }
            assert(parse_primary_at(s, i) == parse_number_at(s, i));
        },
        ExprTree::Neg(a) => {
            let ra = render(*a);
            assert(s.subrange(i + 1, i + 1 + ra.len()) =~= ra) by {
                assert forall|j: int| 0 <= j < ra.len() implies s.subrange(i + 1, i + 1 + ra.len())[j]
                    == ra[j] by {
                    assert(s.subrange(i, i + n)[j + 1] == r[j + 1]);
                }
            }
            lemma_factor_render(s, i + 1, *a);
        },
        ExprTree::Bin(op, a, b) => {
            let ra = render(*a);
            let rb = render(*b);
            let c = op_char(op);
            let ea = i + 1 + ra.len();
            let eb = ea + 1 + rb.len();
            assert(n == eb + 1 - i);
            assert(s.subrange(i + 1, ea) =~= ra) by {
                assert forall|j: int| 0 <= j < ra.len() implies s.subrange(i + 1, ea)[j] == ra[j] by {
                    assert(s.subrange(i, i + n)[j + 1] == r[j + 1]);
                }
            }
            assert(s.subrange(ea + 1, eb) =~= rb) by {
                assert forall|j: int| 0 <= j < rb.len() implies s.subrange(ea + 1, eb)[j] == rb[j] by {
                    assert(s.subrange(i, i + n)[ea + 1 + j - i] == r[ea + 1 + j - i]);
                }
            }
            assert(s[ea] == c) by {
                assert(s.subrange(i, i + n)[ea - i] == r[ea - i]);
            }
            assert(s[eb] == ')') by {
                assert(s.subrange(i, i + n)[eb - i] == r[eb - i]);
            }
            lemma_factor_render(s, i + 1, *a);
            lemma_factor_render(s, ea + 1, *b);
            lemma_render_nonempty(*b);
            let pa = postfix(*a);
            let pb = postfix(*b);
            assert(skip_ws_from(s, ea) == ea);
            assert(skip_ws_from(s, eb) == eb);
            assert(term_rest_at(s, eb) == (Parsed { ops: seq![], end: eb, error: None }));
            assert(expr_rest_at(s, eb) == (Parsed { ops: seq![], end: eb, error: None }));
            let step = op_step(op);
            if c == '*' || c == '/' {
                assert(parse_term_at(s, ea + 1) == (Parsed { ops: pb, end: eb, error: None })) by {
                    assert(pb + seq![] =~= pb);
                }
                assert(term_rest_at(s, ea) == (Parsed { ops: pb.push(step), end: eb, error: None })) by {
                    assert(pb.push(step) + seq![] =~= pb.push(step));
                }
                assert(parse_term_at(s, i + 1) == (Parsed {
                    ops: pa + pb.push(step),
                    end: eb,
                    error: None,
                }));
                assert(parse_expr_at(s, i + 1) == (Parsed {
                    ops: pa + pb.push(step),
                    end: eb,
                    error: None,
                })) by {
                    assert(pa + pb.push(step) + seq![] =~= pa + pb.push(step));
                }
            } else {
                assert(term_rest_at(s, ea) == (Parsed { ops: seq![], end: ea, error: None }));
                assert(parse_term_at(s, i + 1) == (Parsed { ops: pa, end: ea, error: None })) by {
                    assert(pa + seq![] =~= pa);
                }
                assert(parse_term_at(s, ea + 1) == (Parsed { ops: pb, end: eb, error: None })) by {
                    assert(pb + seq![] =~= pb);
                }
                assert(expr_rest_at(s, ea) == (Parsed { ops: pb.push(step), end: eb, error: None })) by {
                    assert(pb.push(step) + seq![] =~= pb.push(step));
                }
                assert(parse_expr_at(s, i + 1) == (Parsed {
                    ops: pa + pb.push(step),
                    end: eb,
                    error: None,
                }));
            }
            assert(parse_primary_at(s, i) == (Parsed {
                ops: pa + pb.push(step),
                end: eb + 1,
                error: None,
            }));
        },
    }
}

/// Every well-formed expression, written out, compiles to exactly its postfix
/// ops, with no syntax error: the parser reads an expression as it was written.
pub proof fn lemma_compile_render(t: ExprTree)
    requires
        well_formed(t),
    ensures
        compile_spec(render(t)) == (postfix(t), None::<Seq<char>>),
{
    let s = render(t);
    let n = s.len() as int;
    assert(s.subrange(0, n) =~= s);
    lemma_factor_render(s, 0, t);
    assert(skip_ws_from(s, n) == n);
    assert(term_rest_at(s, n) == (Parsed { ops: seq![], end: n, error: None }));
    assert(expr_rest_at(s, n) == (Parsed { ops: seq![], end: n, error: None }));
    assert(postfix(t) + seq![] =~= postfix(t));
    assert(parse_term_at(s, 0) == (Parsed { ops: postfix(t), end: n, error: None }));
    assert(parse_expr_at(s, 0) == (Parsed { ops: postfix(t), end: n, error: None }));
}

proof fn lemma_render_allowed(t: ExprTree)
    requires
        well_formed(t),
    ensures
        forall|j: int| 0 <= j < render(t).len() ==> is_allowed(#[trigger] render(t)[j]),
        is_digit(render(t).last()) || render(t).last() == ')',
    decreases t,
{
    lemma_render_nonempty(t);
    match t {
        ExprTree::Num(d) => {},
        ExprTree::Neg(a) => {
            lemma_render_allowed(*a);
            let r = render(t);
            assert forall|j: int| 0 <= j < r.len() implies is_allowed(#[trigger] r[j]) by {
                if j > 0 {
                    assert(r[j] == render(*a)[j - 1]);
                }
            }
            lemma_render_nonempty(*a);
            assert(r[r.len() - 1] == render(*a)[render(*a).len() - 1]);
        },
        ExprTree::Bin(op, a, b) => {
            lemma_render_allowed(*a);
            lemma_render_allowed(*b);
            let r = render(t);
            let ra = render(*a);
            let rb = render(*b);
            assert forall|j: int| 0 <= j < r.len() implies is_allowed(#[trigger] r[j]) by {
                if 1 <= j < 1 + ra.len() {
                    assert(r[j] == ra[j - 1]);
                } else if 2 + ra.len() <= j < 2 + ra.len() + rb.len() {
                    assert(r[j] == rb[j - 2 - ra.len()]);
                }
            }
        },
    }
}

proof fn lemma_all_allowed(s: Seq<char>)
    requires
        forall|j: int| 0 <= j < s.len() ==> is_allowed(#[trigger] s[j]),
    ensures
        first_disallowed(s) is None,
    decreases s.len(),
{
    if s.len() > 0 {
        assert forall|j: int| 0 <= j < s.drop_first().len() implies is_allowed(
            #[trigger] s.drop_first()[j],
        ) by {
            assert(s.drop_first()[j] == s[j + 1]);
        }
        lemma_all_allowed(s.drop_first());
    }
}

/// The calculator accepts every well-formed expression written out, as its
/// `expression` argument, and compiles it to the tree's postfix ops.
pub proof fn lemma_calculator_accepts_render(args: Json, t: ExprTree)
    requires
        well_formed(t),
        args.str_field("expression"@) == Some(render(t)),
    ensures
        checked_expression(args) == Ok::<Seq<char>, Seq<char>>(render(t)),
        compile_spec(render(t)) == (postfix(t), None::<Seq<char>>),
{
    let r = render(t);
    lemma_render_nonempty(t);
    lemma_render_allowed(t);
    assert(trim_start_spec(r) == r);
    assert(trim_end_spec(r) == r);
    lemma_all_allowed(r);
    lemma_compile_render(t);
}

} // verus!
