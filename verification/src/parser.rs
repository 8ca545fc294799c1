use vstd::prelude::*;
use crate::ast::{
    Argument, ArgumentModel, BotAttr, ConditionOp, Expr, ExprModel, FloatNumber, MatchAttr, Value,
    ValueModel,
};
use crate::domain::BotId;
use crate::lexer::{
    has_tag, has_tag_no_case, i64_literal, identifier, read_i64, read_identifier,
    read_string_literal, read_u16, run_length, space_run, string_between, string_literal, tag_at,
    tag_no_case_at, u16_literal, CharClass, Parsed, Step,
};
use crate::number::{float_scan, may_start_number, scan_float, starts_number};
use crate::text::{chars_of, push_str, string_from_chars};

verus! {

// The grammar of filters, read from the start of the text:
//
//   expression := term ("or" term)*
//   term       := factor ("and" factor)*
//   factor     := ["not"] (condition | "(" expression ")")
//   condition  := argument op argument
//   argument   := match_attr | bot_attr | number | string
//
// Keywords are matched in any case and need no space around them; spaces may stand around
// arguments, around `not` and around parenthesised expressions. `and` binds tighter than
// `or`, and both group to the left. A step that fails with `Failure` ends the whole reading;
// one that fails with `Error` lets an alternative, or the end of a repetition, take over.
// The recursive functions test that what a step consumed stays within the text before they
// go on after it; it always does, and the test keeps their definitions well founded.
pub open spec fn word_or() -> Seq<char> {
    seq!['o', 'r']
}

pub open spec fn word_and() -> Seq<char> {
    seq!['a', 'n', 'd']
}

pub open spec fn word_not() -> Seq<char> {
    seq!['n', 'o', 't']
}

pub open spec fn word_match() -> Seq<char> {
    seq!['m', 'a', 't', 'c', 'h']
}

pub open spec fn word_bot() -> Seq<char> {
    seq!['b', 'o', 't']
}

/// `[turn]` at `pos`.
pub open spec fn turn_suffix(s: Seq<char>, pos: int) -> Step<u16> {
    if 0 <= pos < s.len() && s[pos] == '[' {
        match u16_literal(s, pos + 1) {
            Step::Done(t, n) => if pos + 1 + n < s.len() && s[pos + 1 + n] == ']' {
                Step::Done(t, n + 2)
            } else {
                Step::Error
            },
            _ => Step::Error,
        }
    } else {
        Step::Error
    }
}

/// An optional `[turn]` at `pos`: the turn, if any, and the characters it takes.
pub open spec fn optional_turn(s: Seq<char>, pos: int) -> (Option<u16>, nat) {
    match turn_suffix(s, pos) {
        Step::Done(t, n) => (Some(t), n),
        _ => (None, 0),
    }
}

/// `.name` at `pos`.
pub open spec fn dotted_name(s: Seq<char>, pos: int) -> Step<Seq<char>> {
    if 0 <= pos < s.len() && s[pos] == '.' {
        match identifier(s, pos + 1) {
            Step::Done(name, n) => Step::Done(name, n + 1),
            _ => Step::Error,
        }
    } else {
        Step::Error
    }
}

/// `match[turn].name` at `pos`, the turn being optional.
pub open spec fn match_attr_at(s: Seq<char>, pos: int) -> Step<ArgumentModel> {
    if has_tag_no_case(s, pos, word_match()) {
        let (turn, t) = optional_turn(s, pos + 5);
        match dotted_name(s, pos + 5 + t) {
            Step::Done(name, n) => Step::Done(ArgumentModel::MatchAttr(name, turn), 5 + t + n),
            _ => Step::Error,
        }
    } else {
        Step::Error
    }
}

/// `bot(id)[turn].name` at `pos`, the turn being optional.
pub open spec fn bot_attr_at(s: Seq<char>, pos: int) -> Step<ArgumentModel> {
    if has_tag_no_case(s, pos, word_bot()) && pos + 3 < s.len() && s[pos + 3] == '(' {
        match i64_literal(s, pos + 4) {
            Step::Done(id, m) => if pos + 4 + m < s.len() && s[pos + 4 + m] == ')' {
                let (turn, t) = optional_turn(s, pos + 5 + m);
                match dotted_name(s, pos + 5 + m + t) {
                    Step::Done(name, n) => Step::Done(
                        ArgumentModel::BotAttr(name, turn, id),
                        5 + m + t + n,
                    ),
                    _ => Step::Error,
                }
            } else {
                Step::Error
            },
            _ => Step::Error,
        }
    } else {
        Step::Error
    }
}

/// A number, or else a string literal, at `pos`. Numbers are read by nom's float grammar,
/// which reads none from a text that starts with a character no number starts with; such a
/// text is only tried as a string literal.
pub open spec fn value_at(s: Seq<char>, pos: int) -> Step<ArgumentModel> {
    let number = if 0 <= pos < s.len() && may_start_number(s[pos]) {
        float_scan(s.skip(pos))
    } else {
        Err(false)
    };
    match number {
        Ok((left, bits, shown)) => if 0 <= pos && left < s.len() - pos {
            Step::Done(
                ArgumentModel::Value(ValueModel::Number(bits, shown)),
                (s.len() - pos - left) as nat,
            )
        } else {
            Step::Error
        },
        Err(failure) => if failure {
            Step::Failure
        } else {
            match string_literal(s, pos) {
                Step::Done(t, n) => Step::Done(ArgumentModel::Value(ValueModel::Text(t)), n),
                _ => Step::Error,
            }
        },
    }
}

/// An argument at `pos`, with the spaces around it.
pub open spec fn argument_at(s: Seq<char>, pos: int) -> Step<ArgumentModel> {
    let w = space_run(s, pos);
    let p = pos + w;
    let inner = match match_attr_at(s, p) {
        Step::Error => match bot_attr_at(s, p) {
            Step::Error => value_at(s, p),
            other => other,
        },
        other => other,
    };
    match inner {
        Step::Done(a, n) => Step::Done(a, w + n + space_run(s, p + n)),
        Step::Error => Step::Error,
        Step::Failure => Step::Failure,
    }
}

/// A comparison operator at `pos`.
pub open spec fn condition_op_at(s: Seq<char>, pos: int) -> Step<ConditionOp> {
    if has_tag(s, pos, seq!['=', '=']) {
        Step::Done(ConditionOp::Eq, 2)
    } else if has_tag(s, pos, seq!['!', '=']) {
        Step::Done(ConditionOp::NotEq, 2)
    } else if has_tag(s, pos, seq!['<', '=']) {
        Step::Done(ConditionOp::LessOrEqual, 2)
    } else if has_tag(s, pos, seq!['>', '=']) {
        Step::Done(ConditionOp::GreaterOrEqual, 2)
    } else if has_tag(s, pos, seq!['<']) {
        Step::Done(ConditionOp::Less, 1)
    } else if has_tag(s, pos, seq!['>']) {
        Step::Done(ConditionOp::Greater, 1)
    } else {
        Step::Error
    }
}

/// A condition at `pos`.
pub open spec fn condition_at(s: Seq<char>, pos: int) -> Step<ExprModel> {
    match argument_at(s, pos) {
        Step::Done(a, n1) => match condition_op_at(s, pos + n1) {
            Step::Done(op, n2) => match argument_at(s, pos + n1 + n2) {
                Step::Done(b, n3) => Step::Done(ExprModel::Condition(a, op, b), n1 + n2 + n3),
                Step::Error => Step::Error,
                Step::Failure => Step::Failure,
            },
            _ => Step::Error,
        },
        Step::Error => Step::Error,
        Step::Failure => Step::Failure,
    }
}

/// A step moved `k` characters later: what it consumed, plus `k`.
pub open spec fn shifted(step: Step<ExprModel>, k: int) -> Step<ExprModel> {
    match step {
        Step::Done(e, m) => Step::Done(e, (k + m) as nat),
        Step::Error => Step::Error,
        Step::Failure => Step::Failure,
    }
}

/// An expression at `pos`: terms joined by `or`.
pub closed spec fn expression_at(s: Seq<char>, pos: int) -> Step<ExprModel>
    decreases s.len() - pos, 7nat,
{
    match term_at(s, pos) {
        Step::Done(e, n) => if pos + n <= s.len() {
            match or_tail_at(s, pos + n, e) {
                Step::Done(r, m) => Step::Done(r, n + m),
                Step::Error => Step::Error,
                Step::Failure => Step::Failure,
            }
        } else {
            Step::Error
        },
        Step::Error => Step::Error,
        Step::Failure => Step::Failure,
    }
}

/// The `or term` repetitions at `pos`, joined to `acc` from the left.
pub closed spec fn or_tail_at(s: Seq<char>, pos: int, acc: ExprModel) -> Step<ExprModel>
    decreases s.len() - pos, 6nat,
{
    if has_tag_no_case(s, pos, word_or()) {
        match term_at(s, pos + 2) {
            Step::Done(e, n) => if pos + 2 + n <= s.len() {
                match or_tail_at(s, pos + 2 + n, ExprModel::Or(Box::new(acc), Box::new(e))) {
                    Step::Done(r, m) => Step::Done(r, 2 + n + m),
                    Step::Error => Step::Error,
                    Step::Failure => Step::Failure,
                }
            } else {
                Step::Error
            },
            Step::Error => Step::Done(acc, 0),
            Step::Failure => Step::Failure,
        }
    } else {
        Step::Done(acc, 0)
    }
}

/// A term at `pos`: factors joined by `and`.
pub closed spec fn term_at(s: Seq<char>, pos: int) -> Step<ExprModel>
    decreases s.len() - pos, 5nat,
{
    match factor_at(s, pos) {
        Step::Done(e, n) => if pos + n <= s.len() {
            match and_tail_at(s, pos + n, e) {
                Step::Done(r, m) => Step::Done(r, n + m),
                Step::Error => Step::Error,
                Step::Failure => Step::Failure,
            }
        } else {
            Step::Error
        },
        Step::Error => Step::Error,
        Step::Failure => Step::Failure,
    }
}

/// The `and factor` repetitions at `pos`, joined to `acc` from the left.
pub closed spec fn and_tail_at(s: Seq<char>, pos: int, acc: ExprModel) -> Step<ExprModel>
    decreases s.len() - pos, 4nat,
{
    if has_tag_no_case(s, pos, word_and()) {
        match factor_at(s, pos + 3) {
            Step::Done(e, n) => if pos + 3 + n <= s.len() {
                match and_tail_at(s, pos + 3 + n, ExprModel::And(Box::new(acc), Box::new(e))) {
                    Step::Done(r, m) => Step::Done(r, 3 + n + m),
                    Step::Error => Step::Error,
                    Step::Failure => Step::Failure,
                }
            } else {
                Step::Error
            },
            Step::Error => Step::Done(acc, 0),
            Step::Failure => Step::Failure,
        }
    } else {
        Step::Done(acc, 0)
    }
}

/// A factor at `pos`: an optional `not`, then a condition or a parenthesised expression.
pub closed spec fn factor_at(s: Seq<char>, pos: int) -> Step<ExprModel>
    decreases s.len() - pos, 3nat,
{
    let w = space_run(s, pos);
    if has_tag_no_case(s, pos + w, word_not()) {
        let q = pos + w + 3;
        let w2 = space_run(s, q);
        if q + w2 <= s.len() {
            match factor_inner_at(s, q + w2) {
                Step::Done(e, n) => Step::Done(ExprModel::Not(Box::new(e)), w + 3 + w2 + n),
                Step::Error => Step::Error,
                Step::Failure => Step::Failure,
            }
        } else {
            Step::Error
        }
    } else {
        factor_inner_at(s, pos)
    }
}

/// A condition, or else a parenthesised expression, at `pos`.
pub closed spec fn factor_inner_at(s: Seq<char>, pos: int) -> Step<ExprModel>
    decreases s.len() - pos, 2nat,
{
    match condition_at(s, pos) {
        Step::Error => parens_at(s, pos),
        other => other,
    }
}

/// A parenthesised expression at `pos`, with the spaces around it.
pub closed spec fn parens_at(s: Seq<char>, pos: int) -> Step<ExprModel>
    decreases s.len() - pos, 1nat,
{
    let w = space_run(s, pos);
    let q = pos + w;
    if 0 <= pos && q < s.len() && s[q] == '(' {
        match expression_at(s, q + 1) {
            Step::Done(e, n) => if q + 1 + n < s.len() && s[q + 1 + n] == ')' {
                Step::Done(ExprModel::Paren(Box::new(e)), w + n + 2 + space_run(s, q + 2 + n))
            } else {
                Step::Error
            },
            Step::Error => Step::Error,
            Step::Failure => Step::Failure,
        }
    } else {
        Step::Error
    }
}

fn read_turn_suffix(s: &[char], pos: usize) -> (res: Parsed<u16>)
    requires
        pos <= s.len(),
    ensures
        res@ == turn_suffix(s@, pos as int),
        res matches Parsed::Done(_, n) ==> pos + n <= s.len(),
{
    if pos < s.len() && s[pos] == '[' {
        match read_u16(s, pos + 1) {
            Parsed::Done(t, n) => if pos + 1 + n < s.len() && s[pos + 1 + n] == ']' {
                Parsed::Done(t, n + 2)
            } else {
                Parsed::Error
            },
            _ => Parsed::Error,
        }
    } else {
        Parsed::Error
    }
}

fn read_optional_turn(s: &[char], pos: usize) -> (res: (Option<u16>, usize))
    requires
        pos <= s.len(),
    ensures
        (res.0, res.1 as nat) == optional_turn(s@, pos as int),
        pos + res.1 <= s.len(),
{
    match read_turn_suffix(s, pos) {
        Parsed::Done(t, n) => (Some(t), n),
        _ => (None, 0),
    }
}

fn read_dotted_name(s: &[char], pos: usize) -> (res: Parsed<String>)
    requires
        pos <= s.len(),
    ensures
        res@ == dotted_name(s@, pos as int),
        res matches Parsed::Done(_, n) ==> pos + n <= s.len(),
{
    if pos < s.len() && s[pos] == '.' {
        match read_identifier(s, pos + 1) {
            Parsed::Done(name, n) => Parsed::Done(name, n + 1),
            _ => Parsed::Error,
        }
    } else {
        Parsed::Error
    }
}

fn read_match_attr(s: &[char], pos: usize) -> (res: Parsed<Argument>)
    requires
        pos <= s.len(),
    ensures
        res@ == match_attr_at(s@, pos as int),
        res matches Parsed::Done(_, n) ==> pos + n <= s.len(),
{
    let word = ['m', 'a', 't', 'c', 'h'];
    assert(word@ == word_match());
    if tag_no_case_at(s, pos, &word) {
        let (turn, t) = read_optional_turn(s, pos + 5);
        match read_dotted_name(s, pos + 5 + t) {
            Parsed::Done(name, n) => Parsed::Done(
                Argument::MatchAttr(MatchAttr { name, turn }),
                5 + t + n,
            ),
            _ => Parsed::Error,
        }
    } else {
        Parsed::Error
    }
}

fn read_bot_attr(s: &[char], pos: usize) -> (res: Parsed<Argument>)
    requires
        pos <= s.len(),
    ensures
        res@ == bot_attr_at(s@, pos as int),
        res matches Parsed::Done(_, n) ==> pos + n <= s.len(),
{
    let word = ['b', 'o', 't'];
    assert(word@ == word_bot());
    if tag_no_case_at(s, pos, &word) && pos + 3 < s.len() && s[pos + 3] == '(' {
        match read_i64(s, pos + 4) {
            Parsed::Done(id, m) => if pos + 4 + m < s.len() && s[pos + 4 + m] == ')' {
                let (turn, t) = read_optional_turn(s, pos + 5 + m);
                match read_dotted_name(s, pos + 5 + m + t) {
                    Parsed::Done(name, n) => Parsed::Done(
                        Argument::BotAttr(BotAttr { name, turn, bot_id: BotId(id) }),
                        5 + m + t + n,
                    ),
                    _ => Parsed::Error,
                }
            } else {
                Parsed::Error
            },
            _ => Parsed::Error,
        }
    } else {
        Parsed::Error
    }
}

fn read_value(s: &[char], pos: usize) -> (res: Parsed<Argument>)
    requires
        pos <= s.len(),
    ensures
        res@ == value_at(s@, pos as int),
        res matches Parsed::Done(_, n) ==> pos + n <= s.len(),
{
    let number = if pos < s.len() && starts_number(s[pos]) {
        scan_float(s, pos)
    } else {
        Err(false)
    };
    match number {
        Ok((left, bits, text)) => Parsed::Done(
            Argument::Value(Value::Number(FloatNumber { bits, text })),
            s.len() - pos - left,
        ),
        Err(failure) => if failure {
            Parsed::Failure
        } else {
            match read_string_literal(s, pos) {
                Parsed::Done(t, n) => Parsed::Done(Argument::Value(Value::String(t)), n),
                _ => Parsed::Error,
            }
        },
    }
}

fn read_argument(s: &[char], pos: usize) -> (res: Parsed<Argument>)
    requires
        pos <= s.len(),
    ensures
        res@ == argument_at(s@, pos as int),
        res matches Parsed::Done(_, n) ==> pos + n <= s.len(),
{
    let w = run_length(s, pos, CharClass::Space);
    let p = pos + w;
    let inner = match read_match_attr(s, p) {
        Parsed::Error => match read_bot_attr(s, p) {
            Parsed::Error => read_value(s, p),
            other => other,
        },
        other => other,
    };
    match inner {
        Parsed::Done(a, n) => {
            let w2 = run_length(s, p + n, CharClass::Space);
            Parsed::Done(a, w + n + w2)
        },
        Parsed::Error => Parsed::Error,
        Parsed::Failure => Parsed::Failure,
    }
}

fn read_condition_op(s: &[char], pos: usize) -> (res: Parsed<ConditionOp>)
    requires
        pos <= s.len(),
    ensures
        res@ == condition_op_at(s@, pos as int),
        res matches Parsed::Done(_, n) ==> pos + n <= s.len(),
{
    let eq = ['=', '='];
    let ne = ['!', '='];
    let le = ['<', '='];
    let ge = ['>', '='];
    let lt = ['<'];
    let gt = ['>'];
    assert(eq@ == seq!['=', '=']);
    assert(ne@ == seq!['!', '=']);
    assert(le@ == seq!['<', '=']);
    assert(ge@ == seq!['>', '=']);
    assert(lt@ == seq!['<']);
    assert(gt@ == seq!['>']);
    if tag_at(s, pos, &eq) {
        Parsed::Done(ConditionOp::Eq, 2)
    } else if tag_at(s, pos, &ne) {
        Parsed::Done(ConditionOp::NotEq, 2)
    } else if tag_at(s, pos, &le) {
        Parsed::Done(ConditionOp::LessOrEqual, 2)
    } else if tag_at(s, pos, &ge) {
        Parsed::Done(ConditionOp::GreaterOrEqual, 2)
    } else if tag_at(s, pos, &lt) {
        Parsed::Done(ConditionOp::Less, 1)
    } else if tag_at(s, pos, &gt) {
        Parsed::Done(ConditionOp::Greater, 1)
    } else {
        Parsed::Error
    }
}

fn read_condition(s: &[char], pos: usize) -> (res: Parsed<Expr>)
    requires
        pos <= s.len(),
    ensures
        res@ == condition_at(s@, pos as int),
        res matches Parsed::Done(_, n) ==> pos + n <= s.len(),
{
    match read_argument(s, pos) {
        Parsed::Done(a, n1) => match read_condition_op(s, pos + n1) {
            Parsed::Done(op, n2) => match read_argument(s, pos + n1 + n2) {
                Parsed::Done(b, n3) => Parsed::Done(Expr::Condition(a, op, b), n1 + n2 + n3),
                Parsed::Error => Parsed::Error,
                Parsed::Failure => Parsed::Failure,
            },
            _ => Parsed::Error,
        },
        Parsed::Error => Parsed::Error,
        Parsed::Failure => Parsed::Failure,
    }
}

fn read_expression(s: &[char], pos: usize) -> (res: Parsed<Expr>)
    requires
        pos <= s.len(),
    ensures
        res@ == expression_at(s@, pos as int),
        res matches Parsed::Done(_, n) ==> pos + n <= s.len(),
    decreases s@.len() - pos, 7nat,
{
    match read_term(s, pos) {
        Parsed::Done(e, n) => match read_or_tail(s, pos + n, e) {
            Parsed::Done(r, m) => Parsed::Done(r, n + m),
            Parsed::Error => Parsed::Error,
            Parsed::Failure => Parsed::Failure,
        },
        Parsed::Error => Parsed::Error,
        Parsed::Failure => Parsed::Failure,
    }
}

fn read_or_tail(s: &[char], pos: usize, acc: Expr) -> (res: Parsed<Expr>)
    requires
        pos <= s.len(),
    ensures
        res@ == or_tail_at(s@, pos as int, acc@),
        res matches Parsed::Done(_, n) ==> pos + n <= s.len(),
    decreases s@.len() - pos, 6nat,
{
    let word = ['o', 'r'];
    assert(word@ == word_or());
    if tag_no_case_at(s, pos, &word) {
        match read_term(s, pos + 2) {
            Parsed::Done(e, n) => {
                let joined = Expr::Or(Box::new(acc), Box::new(e));
                match read_or_tail(s, pos + 2 + n, joined) {
                    Parsed::Done(r, m) => Parsed::Done(r, 2 + n + m),
                    Parsed::Error => Parsed::Error,
                    Parsed::Failure => Parsed::Failure,
                }
            },
            Parsed::Error => Parsed::Done(acc, 0),
            Parsed::Failure => Parsed::Failure,
        }
    } else {
        Parsed::Done(acc, 0)
    }
}

fn read_term(s: &[char], pos: usize) -> (res: Parsed<Expr>)
    requires
        pos <= s.len(),
    ensures
        res@ == term_at(s@, pos as int),
        res matches Parsed::Done(_, n) ==> pos + n <= s.len(),
    decreases s@.len() - pos, 5nat,
{
    match read_factor(s, pos) {
        Parsed::Done(e, n) => match read_and_tail(s, pos + n, e) {
            Parsed::Done(r, m) => Parsed::Done(r, n + m),
            Parsed::Error => Parsed::Error,
            Parsed::Failure => Parsed::Failure,
        },
        Parsed::Error => Parsed::Error,
        Parsed::Failure => Parsed::Failure,
    }
}

fn read_and_tail(s: &[char], pos: usize, acc: Expr) -> (res: Parsed<Expr>)
    requires
        pos <= s.len(),
    ensures
        res@ == and_tail_at(s@, pos as int, acc@),
        res matches Parsed::Done(_, n) ==> pos + n <= s.len(),
    decreases s@.len() - pos, 4nat,
{
    let word = ['a', 'n', 'd'];
    assert(word@ == word_and());
    if tag_no_case_at(s, pos, &word) {
        match read_factor(s, pos + 3) {
            Parsed::Done(e, n) => {
                let joined = Expr::And(Box::new(acc), Box::new(e));
                match read_and_tail(s, pos + 3 + n, joined) {
                    Parsed::Done(r, m) => Parsed::Done(r, 3 + n + m),
                    Parsed::Error => Parsed::Error,
                    Parsed::Failure => Parsed::Failure,
                }
            },
            Parsed::Error => Parsed::Done(acc, 0),
            Parsed::Failure => Parsed::Failure,
        }
    } else {
        Parsed::Done(acc, 0)
    }
}

fn read_factor(s: &[char], pos: usize) -> (res: Parsed<Expr>)
    requires
        pos <= s.len(),
    ensures
        res@ == factor_at(s@, pos as int),
        res matches Parsed::Done(_, n) ==> pos + n <= s.len(),
    decreases s@.len() - pos, 3nat,
{
    let word = ['n', 'o', 't'];
    assert(word@ == word_not());
    let w = run_length(s, pos, CharClass::Space);
    if tag_no_case_at(s, pos + w, &word) {
        let q = pos + w + 3;
        let w2 = run_length(s, q, CharClass::Space);
        match read_factor_inner(s, q + w2) {
            Parsed::Done(e, n) => Parsed::Done(Expr::Not(Box::new(e)), w + 3 + w2 + n),
            Parsed::Error => Parsed::Error,
            Parsed::Failure => Parsed::Failure,
        }
    } else {
        read_factor_inner(s, pos)
    }
}

fn read_factor_inner(s: &[char], pos: usize) -> (res: Parsed<Expr>)
    requires
        pos <= s.len(),
    ensures
        res@ == factor_inner_at(s@, pos as int),
        res matches Parsed::Done(_, n) ==> pos + n <= s.len(),
    decreases s@.len() - pos, 2nat,
{
    match read_condition(s, pos) {
        Parsed::Error => read_parens(s, pos),
        other => other,
    }
}

fn read_parens(s: &[char], pos: usize) -> (res: Parsed<Expr>)
    requires
        pos <= s.len(),
    ensures
        res@ == parens_at(s@, pos as int),
        res matches Parsed::Done(_, n) ==> pos + n <= s.len(),
    decreases s@.len() - pos, 1nat,
{
    let w = run_length(s, pos, CharClass::Space);
    let q = pos + w;
    if q < s.len() && s[q] == '(' {
        match read_expression(s, q + 1) {
            Parsed::Done(e, n) => if q + 1 + n < s.len() && s[q + 1 + n] == ')' {
                let w2 = run_length(s, q + 2 + n, CharClass::Space);
                Parsed::Done(Expr::Paren(Box::new(e)), w + n + 2 + w2)
            } else {
                Parsed::Error
            },
            Parsed::Error => Parsed::Error,
            Parsed::Failure => Parsed::Failure,
        }
    } else {
        Parsed::Error
    }
}

/// Why a filter text is refused.
#[derive(Debug)]
pub enum FilterError {
    /// The text does not start with an expression.
    InvalidSyntax,
    /// An expression was read, but this text follows it.
    UnexpectedSuffix(String),
}

/// The mathematical model of a refusal.
pub enum FilterErrorModel {
    InvalidSyntax,
    UnexpectedSuffix(Seq<char>),
}

impl View for FilterError {
    type V = FilterErrorModel;

    open spec fn view(&self) -> FilterErrorModel {
        match self {
            FilterError::InvalidSyntax => FilterErrorModel::InvalidSyntax,
            FilterError::UnexpectedSuffix(rest) => FilterErrorModel::UnexpectedSuffix(rest@),
        }
    }
}

/// The expression that the whole text `s` holds, or why there is none.
pub open spec fn parse_text(s: Seq<char>) -> Result<ExprModel, FilterErrorModel> {
    match expression_at(s, 0) {
        Step::Done(e, n) => if n == s.len() {
            Ok(e)
        } else {
            Err(FilterErrorModel::UnexpectedSuffix(s.skip(n as int)))
        },
        _ => Err(FilterErrorModel::InvalidSyntax),
    }
}

/// The message that reports a refusal.
pub open spec fn error_message(e: FilterErrorModel) -> Seq<char> {
    match e {
        FilterErrorModel::InvalidSyntax => "Invalid filter syntax, please check docs"@,
        FilterErrorModel::UnexpectedSuffix(rest) => "Unexpected suffix: "@ + rest,
    }
}

impl FilterError {
    /// The message that reports this refusal.
    pub fn message(&self) -> (res: String)
        ensures
            res@ == error_message(self@),
    {
        let mut out: Vec<char> = Vec::new();
        match self {
            FilterError::InvalidSyntax => push_str(&mut out, "Invalid filter syntax, please check docs"),
            FilterError::UnexpectedSuffix(rest) => {
                push_str(&mut out, "Unexpected suffix: ");
                push_str(&mut out, rest.as_str());
            },
        }
        string_from_chars(&out)
    }
}

/// Reads a filter expression that must cover the whole of `input`.
pub fn parse(input: &str) -> (res: Result<Expr, FilterError>)
    ensures
        res matches Ok(e) ==> parse_text(input@) == Ok::<ExprModel, FilterErrorModel>(e@),
        res matches Err(err) ==> parse_text(input@) == Err::<ExprModel, FilterErrorModel>(err@),
{
    let s = chars_of(input);
    match read_expression(&s, 0) {
        Parsed::Done(e, n) => if n == s.len() {
            Ok(e)
        } else {
            Err(FilterError::UnexpectedSuffix(string_between(&s, n, s.len())))
        },
        _ => Err(FilterError::InvalidSyntax),
    }
}

// How the grammar functions above unfold, one level at a time.
pub proof fn lemma_expression_at_unfold(s: Seq<char>, pos: int)
    ensures
        expression_at(s, pos) == match term_at(s, pos) {
            Step::Done(e, n) => if pos + n <= s.len() {
                shifted(or_tail_at(s, pos + n, e), n as int)
            } else {
                Step::Error
            },
            Step::Error => Step::Error,
            Step::Failure => Step::Failure,
        },
{
}

pub proof fn lemma_or_tail_at_unfold(s: Seq<char>, pos: int, acc: ExprModel)
    ensures
        or_tail_at(s, pos, acc) == if has_tag_no_case(s, pos, word_or()) {
            match term_at(s, pos + 2) {
                Step::Done(e, n) => if pos + 2 + n <= s.len() {
                    shifted(
                        or_tail_at(s, pos + 2 + n, ExprModel::Or(Box::new(acc), Box::new(e))),
                        (2 + n) as int,
                    )
                } else {
                    Step::Error
                },
                Step::Error => Step::Done(acc, 0),
                Step::Failure => Step::Failure,
            }
        } else {
            Step::Done(acc, 0)
        },
{
}

pub proof fn lemma_term_at_unfold(s: Seq<char>, pos: int)
    ensures
        term_at(s, pos) == match factor_at(s, pos) {
            Step::Done(e, n) => if pos + n <= s.len() {
                shifted(and_tail_at(s, pos + n, e), n as int)
            } else {
                Step::Error
            },
            Step::Error => Step::Error,
            Step::Failure => Step::Failure,
        },
{
}

pub proof fn lemma_and_tail_at_unfold(s: Seq<char>, pos: int, acc: ExprModel)
    ensures
        and_tail_at(s, pos, acc) == if has_tag_no_case(s, pos, word_and()) {
            match factor_at(s, pos + 3) {
                Step::Done(e, n) => if pos + 3 + n <= s.len() {
                    shifted(
                        and_tail_at(s, pos + 3 + n, ExprModel::And(Box::new(acc), Box::new(e))),
                        (3 + n) as int,
                    )
                } else {
                    Step::Error
                },
                Step::Error => Step::Done(acc, 0),
                Step::Failure => Step::Failure,
            }
        } else {
            Step::Done(acc, 0)
        },
{
}

pub proof fn lemma_factor_at_unfold(s: Seq<char>, pos: int)
    ensures
        factor_at(s, pos) == if has_tag_no_case(s, pos + space_run(s, pos), word_not()) {
            let q = pos + space_run(s, pos) + 3;
            if q + space_run(s, q) <= s.len() {
                match factor_inner_at(s, q + space_run(s, q)) {
                    Step::Done(e, n) => Step::Done(
                        ExprModel::Not(Box::new(e)),
                        space_run(s, pos) + 3 + space_run(s, q) + n,
                    ),
                    Step::Error => Step::Error,
                    Step::Failure => Step::Failure,
                }
            } else {
                Step::Error
            }
        } else {
            factor_inner_at(s, pos)
        },
{
}

pub proof fn lemma_factor_inner_at_unfold(s: Seq<char>, pos: int)
    ensures
        factor_inner_at(s, pos) == match condition_at(s, pos) {
            Step::Error => parens_at(s, pos),
            other => other,
        },
{
}

pub proof fn lemma_parens_at_unfold(s: Seq<char>, pos: int)
    ensures
        parens_at(s, pos) == if 0 <= pos && pos + space_run(s, pos) < s.len() && s[pos
            + space_run(s, pos)] == '(' {
            let q = pos + space_run(s, pos);
            match expression_at(s, q + 1) {
                Step::Done(e, n) => if q + 1 + n < s.len() && s[q + 1 + n] == ')' {
                    Step::Done(
                        ExprModel::Paren(Box::new(e)),
                        space_run(s, pos) + n + 2 + space_run(s, q + 2 + n),
                    )
                } else {
                    Step::Error
                },
                Step::Error => Step::Error,
                Step::Failure => Step::Failure,
            }
        } else {
            Step::Error
        },
{
}

} // verus!
