use vstd::prelude::*;
use crate::ast::{ArgumentModel, ExprModel};
use crate::lexer::{class_run, in_class, lemma_class_run_end, space_run, CharClass, Step};
use crate::parser::{
    and_tail_at, argument_at, condition_at, expression_at, factor_at, factor_inner_at,
    lemma_and_tail_at_unfold, lemma_expression_at_unfold, lemma_factor_at_unfold,
    lemma_factor_inner_at_unfold, lemma_or_tail_at_unfold, lemma_parens_at_unfold,
    lemma_term_at_unfold, or_tail_at, parens_at, parse_text, shifted, term_at, FilterErrorModel,
};

verus! {

// Whitespace in a filter text: space, tab, carriage return and line feed are alike wherever
// the grammar lets whitespace stand.
/// Space, tab, carriage return or line feed.
pub open spec fn is_whitespace(c: char) -> bool {
    c == ' ' || c == '\t' || c == '\r' || c == '\n'
}

/// `s` holds only whitespace from `from` up to `to`.
pub open spec fn blank_between(s: Seq<char>, from: int, to: int) -> bool {
    forall|k: int| from <= k < to ==> is_whitespace(#[trigger] s[k])
}

/// A step of an argument moved `k` characters later.
pub open spec fn shifted_argument(step: Step<ArgumentModel>, k: int) -> Step<ArgumentModel> {
    match step {
        Step::Done(a, m) => Step::Done(a, (k + m) as nat),
        Step::Error => Step::Error,
        Step::Failure => Step::Failure,
    }
}

/// A step that, where it reads something, stops at the end of the text or before a character
/// that is not whitespace.
pub open spec fn stops_at_text<V>(s: Seq<char>, pos: int, step: Step<V>) -> bool {
    match step {
        Step::Done(_, n) => pos + n < s.len() ==> !is_whitespace(s[pos + n]),
        _ => true,
    }
}

proof fn lemma_space_run_skips(s: Seq<char>, pos: int, j: int)
    requires
        0 <= pos,
        0 <= j,
        pos + j <= s.len(),
        blank_between(s, pos, pos + j),
    ensures
        space_run(s, pos) == j + space_run(s, pos + j),
    decreases j,
{
    if j > 0 {
        assert(is_whitespace(s[pos]));
        assert(in_class(s[pos], CharClass::Space));
        lemma_space_run_skips(s, pos + 1, j - 1);
    }
}

proof fn lemma_space_run_stops(s: Seq<char>, pos: int)
    requires
        0 <= pos,
    ensures
        pos + space_run(s, pos) < s.len() ==> !is_whitespace(s[pos + space_run(s, pos)]),
{
    if pos <= s.len() {
        lemma_class_run_end(s, pos, CharClass::Space);
    }
}

proof fn lemma_argument_skips(s: Seq<char>, pos: int, j: int)
    requires
        0 <= pos,
        0 <= j,
        pos + j <= s.len(),
        blank_between(s, pos, pos + j),
    ensures
        argument_at(s, pos) == shifted_argument(argument_at(s, pos + j), j),
{
    lemma_space_run_skips(s, pos, j);
}

proof fn lemma_condition_skips(s: Seq<char>, pos: int, j: int)
    requires
        0 <= pos,
        0 <= j,
        pos + j <= s.len(),
        blank_between(s, pos, pos + j),
    ensures
        condition_at(s, pos) == shifted(condition_at(s, pos + j), j),
{
    lemma_argument_skips(s, pos, j);
    match argument_at(s, pos + j) {
        Step::Done(a, n1) => {
            assert(pos + (j + n1) as nat == pos + j + n1);
        },
        _ => {},
    }
}

proof fn lemma_parens_skips(s: Seq<char>, pos: int, j: int)
    requires
        0 <= pos,
        0 <= j,
        pos + j <= s.len(),
        blank_between(s, pos, pos + j),
    ensures
        parens_at(s, pos) == shifted(parens_at(s, pos + j), j),
{
    lemma_space_run_skips(s, pos, j);
    lemma_parens_at_unfold(s, pos);
    lemma_parens_at_unfold(s, pos + j);
}

proof fn lemma_factor_inner_skips(s: Seq<char>, pos: int, j: int)
    requires
        0 <= pos,
        0 <= j,
        pos + j <= s.len(),
        blank_between(s, pos, pos + j),
    ensures
        factor_inner_at(s, pos) == shifted(factor_inner_at(s, pos + j), j),
{
    lemma_condition_skips(s, pos, j);
    lemma_parens_skips(s, pos, j);
    lemma_factor_inner_at_unfold(s, pos);
    lemma_factor_inner_at_unfold(s, pos + j);
}

proof fn lemma_factor_skips(s: Seq<char>, pos: int, j: int)
    requires
        0 <= pos,
        0 <= j,
        pos + j <= s.len(),
        blank_between(s, pos, pos + j),
    ensures
        factor_at(s, pos) == shifted(factor_at(s, pos + j), j),
{
    lemma_space_run_skips(s, pos, j);
    lemma_factor_inner_skips(s, pos, j);
    lemma_factor_at_unfold(s, pos);
    lemma_factor_at_unfold(s, pos + j);
}

proof fn lemma_term_skips(s: Seq<char>, pos: int, j: int)
    requires
        0 <= pos,
        0 <= j,
        pos + j <= s.len(),
        blank_between(s, pos, pos + j),
    ensures
        term_at(s, pos) == shifted(term_at(s, pos + j), j),
{
    lemma_factor_skips(s, pos, j);
    lemma_term_at_unfold(s, pos);
    lemma_term_at_unfold(s, pos + j);
    match factor_at(s, pos + j) {
        Step::Done(e, n) => {
            assert(pos + (j + n) as nat == pos + j + n);
        },
        _ => {},
    }
}

proof fn lemma_expression_skips(s: Seq<char>, pos: int, j: int)
    requires
        0 <= pos,
        0 <= j,
        pos + j <= s.len(),
        blank_between(s, pos, pos + j),
    ensures
        expression_at(s, pos) == shifted(expression_at(s, pos + j), j),
{
    lemma_term_skips(s, pos, j);
    lemma_expression_at_unfold(s, pos);
    lemma_expression_at_unfold(s, pos + j);
    match term_at(s, pos + j) {
        Step::Done(e, n) => {
            assert(pos + (j + n) as nat == pos + j + n);
        },
        _ => {},
    }
}

proof fn lemma_argument_stops(s: Seq<char>, pos: int)
    requires
        0 <= pos,
    ensures
        stops_at_text(s, pos, argument_at(s, pos)),
{
    let p = pos + space_run(s, pos);
    let inner = match crate::parser::match_attr_at(s, p) {
        Step::Error => match crate::parser::bot_attr_at(s, p) {
            Step::Error => crate::parser::value_at(s, p),
            other => other,
        },
        other => other,
    };
    match inner {
        Step::Done(a, n) => {
            lemma_space_run_stops(s, p + n);
        },
        _ => {},
    }
}

proof fn lemma_condition_stops(s: Seq<char>, pos: int)
    requires
        0 <= pos,
    ensures
        stops_at_text(s, pos, condition_at(s, pos)),
{
    match argument_at(s, pos) {
        Step::Done(a, n1) => match crate::parser::condition_op_at(s, pos + n1) {
            Step::Done(op, n2) => {
                lemma_argument_stops(s, pos + n1 + n2);
            },
            _ => {},
        },
        _ => {},
    }
}

proof fn lemma_parens_stops(s: Seq<char>, pos: int)
    requires
        0 <= pos,
    ensures
        stops_at_text(s, pos, parens_at(s, pos)),
{
    lemma_parens_at_unfold(s, pos);
    let q = pos + space_run(s, pos);
    match expression_at(s, q + 1) {
        Step::Done(e, n) => {
            lemma_space_run_stops(s, q + 2 + n);
        },
        _ => {},
    }
}

proof fn lemma_factor_inner_stops(s: Seq<char>, pos: int)
    requires
        0 <= pos,
    ensures
        stops_at_text(s, pos, factor_inner_at(s, pos)),
{
    lemma_factor_inner_at_unfold(s, pos);
    lemma_condition_stops(s, pos);
    lemma_parens_stops(s, pos);
}

proof fn lemma_factor_stops(s: Seq<char>, pos: int)
    requires
        0 <= pos,
    ensures
        stops_at_text(s, pos, factor_at(s, pos)),
{
    lemma_factor_at_unfold(s, pos);
    let q = pos + space_run(s, pos) + 3;
    lemma_factor_inner_stops(s, q + space_run(s, q));
    lemma_factor_inner_stops(s, pos);
}

proof fn lemma_and_tail_stops(s: Seq<char>, pos: int, acc: ExprModel)
    requires
        0 <= pos,
        pos < s.len() ==> !is_whitespace(s[pos]),
    ensures
        stops_at_text(s, pos, and_tail_at(s, pos, acc)),
    decreases s.len() - pos,
{
    lemma_and_tail_at_unfold(s, pos, acc);
    if crate::lexer::has_tag_no_case(s, pos, crate::parser::word_and()) {
        lemma_factor_stops(s, pos + 3);
        match factor_at(s, pos + 3) {
            Step::Done(e, n) => if pos + 3 + n <= s.len() {
                lemma_and_tail_stops(
                    s,
                    pos + 3 + n,
                    ExprModel::And(Box::new(acc), Box::new(e)),
                );
            },
            _ => {},
        }
    }
}

proof fn lemma_term_stops(s: Seq<char>, pos: int)
    requires
        0 <= pos,
    ensures
        stops_at_text(s, pos, term_at(s, pos)),
{
    lemma_term_at_unfold(s, pos);
    lemma_factor_stops(s, pos);
    match factor_at(s, pos) {
        Step::Done(e, n) => if pos + n <= s.len() {
            lemma_and_tail_stops(s, pos + n, e);
        },
        _ => {},
    }
}

proof fn lemma_or_tail_stops(s: Seq<char>, pos: int, acc: ExprModel)
    requires
        0 <= pos,
        pos < s.len() ==> !is_whitespace(s[pos]),
    ensures
        stops_at_text(s, pos, or_tail_at(s, pos, acc)),
    decreases s.len() - pos,
{
    lemma_or_tail_at_unfold(s, pos, acc);
    if crate::lexer::has_tag_no_case(s, pos, crate::parser::word_or()) {
        lemma_term_stops(s, pos + 2);
        match term_at(s, pos + 2) {
            Step::Done(e, n) => if pos + 2 + n <= s.len() {
                lemma_or_tail_stops(s, pos + 2 + n, ExprModel::Or(Box::new(acc), Box::new(e)));
            },
            _ => {},
        }
    }
}

proof fn lemma_expression_stops(s: Seq<char>, pos: int)
    requires
        0 <= pos,
    ensures
        stops_at_text(s, pos, expression_at(s, pos)),
{
    lemma_expression_at_unfold(s, pos);
    lemma_term_stops(s, pos);
    match term_at(s, pos) {
        Step::Done(e, n) => if pos + n <= s.len() {
            lemma_or_tail_stops(s, pos + n, e);
        },
        _ => {},
    }
}

/// Whitespace of any kind (space, tab, carriage return, line feed) in front of an argument, a
/// condition, a factor, a term or an expression is skipped: reading at the start of the run
/// gives what reading after it gives, with the run counted as read.
pub proof fn law_leading_whitespace_is_skipped(s: Seq<char>, pos: int, j: int)
    requires
        0 <= pos,
        0 <= j,
        pos + j <= s.len(),
        blank_between(s, pos, pos + j),
    ensures
        argument_at(s, pos) == shifted_argument(argument_at(s, pos + j), j),
        condition_at(s, pos) == shifted(condition_at(s, pos + j), j),
        factor_at(s, pos) == shifted(factor_at(s, pos + j), j),
        term_at(s, pos) == shifted(term_at(s, pos + j), j),
        expression_at(s, pos) == shifted(expression_at(s, pos + j), j),
{
    lemma_argument_skips(s, pos, j);
    lemma_condition_skips(s, pos, j);
    lemma_factor_skips(s, pos, j);
    lemma_term_skips(s, pos, j);
    lemma_expression_skips(s, pos, j);
}

/// The whitespace of any kind after an argument, a condition, a factor, a term or an
/// expression is read with it: what such a read takes ends at the end of the text or before a
/// character that is not whitespace.
pub proof fn law_trailing_whitespace_is_read(s: Seq<char>, pos: int)
    requires
        0 <= pos,
    ensures
        stops_at_text(s, pos, argument_at(s, pos)),
        stops_at_text(s, pos, condition_at(s, pos)),
        stops_at_text(s, pos, factor_at(s, pos)),
        stops_at_text(s, pos, term_at(s, pos)),
        stops_at_text(s, pos, expression_at(s, pos)),
{
    lemma_argument_stops(s, pos);
    lemma_condition_stops(s, pos);
    lemma_factor_stops(s, pos);
    lemma_term_stops(s, pos);
    lemma_expression_stops(s, pos);
}

/// A text whose expression ends before the end of the text is refused for the rest, and that
/// rest never starts with whitespace: whitespace after an expression is read with it. And
/// whitespace of any kind in front of a text's expression reads as nothing.
pub proof fn law_whitespace_around_a_text(s: Seq<char>, j: int)
    requires
        0 <= j <= s.len(),
        blank_between(s, 0, j),
    ensures
        match expression_at(s, 0) {
            Step::Done(_, n) => n < s.len() ==> {
                &&& parse_text(s) == Err::<ExprModel, FilterErrorModel>(
                    FilterErrorModel::UnexpectedSuffix(s.skip(n as int)),
                )
                &&& !is_whitespace(s[n as int])
            },
            _ => true,
        },
        expression_at(s, 0) == shifted(expression_at(s, j), j),
{
    lemma_expression_stops(s, 0);
    lemma_expression_skips(s, 0, j);
}

} // verus!
