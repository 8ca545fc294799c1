use vstd::prelude::*;
use crate::ast::{ArgumentModel, ConditionOp, ExprModel, ValueModel};
use crate::domain::{AttributeModel, AttributeValueModel};
use crate::filter::{
    accepts, argument_needs, compare_values, condition_outcome, expr_needs, filter_needs, lookup,
    outcome, resolve, EvalError,
};
use crate::number::{
    int_as_float_bits, is_nan_pattern, law_small_integers_compare_exactly, order_key,
};

verus! {

/// Two attribute lists give the same value for every attribute in `needs`.
pub open spec fn agree_on(
    needs: Seq<AttributeModel>,
    a1: Seq<AttributeModel>,
    a2: Seq<AttributeModel>,
) -> bool {
    forall|i: int|
        0 <= i < needs.len() ==> lookup(a1, #[trigger] needs[i].name, needs[i].turn, needs[i].bot_id)
            == lookup(a2, needs[i].name, needs[i].turn, needs[i].bot_id)
}

proof fn lemma_agree_on_parts(
    left: Seq<AttributeModel>,
    right: Seq<AttributeModel>,
    a1: Seq<AttributeModel>,
    a2: Seq<AttributeModel>,
)
    requires
        agree_on(left + right, a1, a2),
    ensures
        agree_on(left, a1, a2),
        agree_on(right, a1, a2),
{
    assert forall|i: int| 0 <= i < left.len() implies lookup(
        a1,
        #[trigger] left[i].name,
        left[i].turn,
        left[i].bot_id,
    ) == lookup(a2, left[i].name, left[i].turn, left[i].bot_id) by {
        assert((left + right)[i] == left[i]);
    }
    assert forall|i: int| 0 <= i < right.len() implies lookup(
        a1,
        #[trigger] right[i].name,
        right[i].turn,
        right[i].bot_id,
    ) == lookup(a2, right[i].name, right[i].turn, right[i].bot_id) by {
        assert((left + right)[left.len() + i] == right[i]);
    }
}

proof fn lemma_resolve_agrees(arg: ArgumentModel, a1: Seq<AttributeModel>, a2: Seq<AttributeModel>)
    requires
        agree_on(argument_needs(arg), a1, a2),
    ensures
        resolve(arg, a1) == resolve(arg, a2),
{
    match arg {
        ArgumentModel::Value(_) => {},
        ArgumentModel::MatchAttr(name, turn) => {
            assert(argument_needs(arg)[0].name == name);
        },
        ArgumentModel::BotAttr(name, turn, id) => {
            assert(argument_needs(arg)[0].name == name);
        },
    }
}

proof fn lemma_outcome_agrees(e: ExprModel, a1: Seq<AttributeModel>, a2: Seq<AttributeModel>)
    requires
        agree_on(expr_needs(e), a1, a2),
    ensures
        outcome(e, a1) == outcome(e, a2),
    decreases e,
{
    match e {
        ExprModel::Condition(a, op, b) => {
            lemma_agree_on_parts(argument_needs(a), argument_needs(b), a1, a2);
            lemma_resolve_agrees(a, a1, a2);
            lemma_resolve_agrees(b, a1, a2);
        },
        ExprModel::Paren(inner) => {
            lemma_outcome_agrees(*inner, a1, a2);
        },
        ExprModel::And(l, r) => {
            lemma_agree_on_parts(expr_needs(*l), expr_needs(*r), a1, a2);
            lemma_outcome_agrees(*l, a1, a2);
            lemma_outcome_agrees(*r, a1, a2);
        },
        ExprModel::Or(l, r) => {
            lemma_agree_on_parts(expr_needs(*l), expr_needs(*r), a1, a2);
            lemma_outcome_agrees(*l, a1, a2);
            lemma_outcome_agrees(*r, a1, a2);
        },
        ExprModel::Not(inner) => {
            lemma_outcome_agrees(*inner, a1, a2);
        },
    }
}

/// A filter's verdict on a match depends only on the attributes that `needed_attributes`
/// lists: two matches whose first attribute of each listed name, bot and turn carry the same
/// value (or that both lack it) get the same verdict.
pub proof fn law_verdict_depends_only_on_needed_attributes(
    filter: Option<ExprModel>,
    a1: Seq<AttributeModel>,
    a2: Seq<AttributeModel>,
)
    requires
        agree_on(filter_needs(filter), a1, a2),
    ensures
        accepts(filter, a1) == accepts(filter, a2),
{
    match filter {
        Some(e) => lemma_outcome_agrees(e, a1, a2),
        None => {},
    }
}

/// The filter without an expression accepts every match and needs no attribute.
pub proof fn law_accept_all(attrs: Seq<AttributeModel>)
    ensures
        accepts(None, attrs),
        filter_needs(None) == Seq::<AttributeModel>::empty(),
{
}

/// An expression that cannot be decided for a match (an attribute it reads is missing, or
/// it compares values that do not compare) accepts neither the match nor does its negation.
pub proof fn law_undecided_expression_rejects(e: ExprModel, attrs: Seq<AttributeModel>)
    requires
        outcome(e, attrs) is Err,
    ensures
        !accepts(Some(e), attrs),
        !accepts(Some(ExprModel::Not(Box::new(e))), attrs),
        !accepts(Some(ExprModel::Paren(Box::new(e))), attrs),
{
}

/// `NOT` turns a decided expression's verdict around.
pub proof fn law_not_inverts(e: ExprModel, attrs: Seq<AttributeModel>)
    requires
        outcome(e, attrs) is Ok,
    ensures
        accepts(Some(ExprModel::Not(Box::new(e))), attrs) == !accepts(Some(e), attrs),
{
}


/// `OR`, `AND`, `NOT` and parentheses. An operand that cannot be decided on the left makes
/// the whole undecided. `OR` with a left side that holds holds; with a left side that does
/// not hold it is what its right side is. `AND` with a left side that does not hold does not
/// hold; with a left side that holds it is what its right side is. On decided operands `OR`,
/// `AND` and `NOT` are the boolean or, and and not, and parentheses change nothing.
pub proof fn law_connectives(l: ExprModel, r: ExprModel, attrs: Seq<AttributeModel>)
    ensures
        outcome(l, attrs) is Err ==> outcome(ExprModel::Or(Box::new(l), Box::new(r)), attrs)
            == outcome(l, attrs) && outcome(ExprModel::And(Box::new(l), Box::new(r)), attrs)
            == outcome(l, attrs),
        outcome(l, attrs) == Ok::<bool, EvalError>(true) ==> outcome(
            ExprModel::Or(Box::new(l), Box::new(r)),
            attrs,
        ) == Ok::<bool, EvalError>(true),
        outcome(l, attrs) == Ok::<bool, EvalError>(false) ==> outcome(
            ExprModel::Or(Box::new(l), Box::new(r)),
            attrs,
        ) == outcome(r, attrs),
        outcome(l, attrs) == Ok::<bool, EvalError>(false) ==> outcome(
            ExprModel::And(Box::new(l), Box::new(r)),
            attrs,
        ) == Ok::<bool, EvalError>(false),
        outcome(l, attrs) == Ok::<bool, EvalError>(true) ==> outcome(
            ExprModel::And(Box::new(l), Box::new(r)),
            attrs,
        ) == outcome(r, attrs),
        outcome(l, attrs) is Ok && outcome(r, attrs) is Ok ==> {
            &&& outcome(ExprModel::Or(Box::new(l), Box::new(r)), attrs) == Ok::<bool, EvalError>(
                outcome(l, attrs)->Ok_0 || outcome(r, attrs)->Ok_0,
            )
            &&& outcome(ExprModel::And(Box::new(l), Box::new(r)), attrs) == Ok::<bool, EvalError>(
                outcome(l, attrs)->Ok_0 && outcome(r, attrs)->Ok_0,
            )
        },
        outcome(l, attrs) is Ok ==> outcome(ExprModel::Not(Box::new(l)), attrs) == Ok::<
            bool,
            EvalError,
        >(!outcome(l, attrs)->Ok_0),
        outcome(ExprModel::Paren(Box::new(l)), attrs) == outcome(l, attrs),
        outcome(l, attrs) is Ok ==> accepts(Some(ExprModel::Or(Box::new(l), Box::new(r))), attrs)
            == (accepts(Some(l), attrs) || accepts(Some(r), attrs)),
        outcome(l, attrs) is Ok && outcome(r, attrs) is Ok ==> accepts(
            Some(ExprModel::And(Box::new(l), Box::new(r))),
            attrs,
        ) == (accepts(Some(l), attrs) && accepts(Some(r), attrs)),
{
}

/// Numbers that are not NaN compare by value: each of the six operators holds exactly when
/// it holds of their order keys, which order them as the real numbers they stand for.
pub proof fn law_numbers_compare_by_value(x: u64, y: u64)
    requires
        !is_nan_pattern(x),
        !is_nan_pattern(y),
    ensures
        compare_values(ConditionOp::Eq, AttributeValueModel::Float(x), AttributeValueModel::Float(y))
            == Ok::<bool, EvalError>(order_key(x) == order_key(y)),
        compare_values(
            ConditionOp::NotEq,
            AttributeValueModel::Float(x),
            AttributeValueModel::Float(y),
        ) == Ok::<bool, EvalError>(order_key(x) != order_key(y)),
        compare_values(
            ConditionOp::Less,
            AttributeValueModel::Float(x),
            AttributeValueModel::Float(y),
        ) == Ok::<bool, EvalError>(order_key(x) < order_key(y)),
        compare_values(
            ConditionOp::LessOrEqual,
            AttributeValueModel::Float(x),
            AttributeValueModel::Float(y),
        ) == Ok::<bool, EvalError>(order_key(x) <= order_key(y)),
        compare_values(
            ConditionOp::Greater,
            AttributeValueModel::Float(x),
            AttributeValueModel::Float(y),
        ) == Ok::<bool, EvalError>(order_key(x) > order_key(y)),
        compare_values(
            ConditionOp::GreaterOrEqual,
            AttributeValueModel::Float(x),
            AttributeValueModel::Float(y),
        ) == Ok::<bool, EvalError>(order_key(x) >= order_key(y)),
{
}

/// A NaN compares with nothing: every operator but `!=` fails to hold, and `!=` holds.
pub proof fn law_nan_compares_with_nothing(x: u64, y: u64)
    requires
        is_nan_pattern(x) || is_nan_pattern(y),
    ensures
        compare_values(ConditionOp::Eq, AttributeValueModel::Float(x), AttributeValueModel::Float(y))
            == Ok::<bool, EvalError>(false),
        compare_values(
            ConditionOp::NotEq,
            AttributeValueModel::Float(x),
            AttributeValueModel::Float(y),
        ) == Ok::<bool, EvalError>(true),
        compare_values(
            ConditionOp::Less,
            AttributeValueModel::Float(x),
            AttributeValueModel::Float(y),
        ) == Ok::<bool, EvalError>(false),
        compare_values(
            ConditionOp::LessOrEqual,
            AttributeValueModel::Float(x),
            AttributeValueModel::Float(y),
        ) == Ok::<bool, EvalError>(false),
        compare_values(
            ConditionOp::Greater,
            AttributeValueModel::Float(x),
            AttributeValueModel::Float(y),
        ) == Ok::<bool, EvalError>(false),
        compare_values(
            ConditionOp::GreaterOrEqual,
            AttributeValueModel::Float(x),
            AttributeValueModel::Float(y),
        ) == Ok::<bool, EvalError>(false),
{
}

/// Integer attributes of at most 2^53 in magnitude compare as the integers do, under each of
/// the six operators.
pub proof fn law_integers_compare_as_integers(a: i64, b: i64)
    requires
        -0x20_0000_0000_0000 <= a <= 0x20_0000_0000_0000,
        -0x20_0000_0000_0000 <= b <= 0x20_0000_0000_0000,
    ensures
        compare_values(
            ConditionOp::Eq,
            AttributeValueModel::Integer(a),
            AttributeValueModel::Integer(b),
        ) == Ok::<bool, EvalError>(a == b),
        compare_values(
            ConditionOp::NotEq,
            AttributeValueModel::Integer(a),
            AttributeValueModel::Integer(b),
        ) == Ok::<bool, EvalError>(a != b),
        compare_values(
            ConditionOp::Less,
            AttributeValueModel::Integer(a),
            AttributeValueModel::Integer(b),
        ) == Ok::<bool, EvalError>(a < b),
        compare_values(
            ConditionOp::LessOrEqual,
            AttributeValueModel::Integer(a),
            AttributeValueModel::Integer(b),
        ) == Ok::<bool, EvalError>(a <= b),
        compare_values(
            ConditionOp::Greater,
            AttributeValueModel::Integer(a),
            AttributeValueModel::Integer(b),
        ) == Ok::<bool, EvalError>(a > b),
        compare_values(
            ConditionOp::GreaterOrEqual,
            AttributeValueModel::Integer(a),
            AttributeValueModel::Integer(b),
        ) == Ok::<bool, EvalError>(a >= b),
{
    vstd::arithmetic::power2::lemma2_to64();
    vstd::arithmetic::power2::lemma2_to64_rest();
    law_small_integers_compare_exactly(a as int, b as int);
    law_small_integers_compare_exactly(b as int, a as int);
}

/// Texts compare for equality only: `==` holds exactly when they are the same sequence of
/// characters, `!=` exactly when they are not, and an ordering between texts is refused.
/// So the condition `match[turn].name == "t"` holds exactly when that attribute is the
/// text t.
pub proof fn law_texts_compare_for_equality(
    x: Seq<char>,
    y: Seq<char>,
    name: Seq<char>,
    turn: Option<u16>,
    attrs: Seq<AttributeModel>,
)
    ensures
        compare_values(ConditionOp::Eq, AttributeValueModel::Text(x), AttributeValueModel::Text(y))
            == Ok::<bool, EvalError>(x == y),
        compare_values(
            ConditionOp::NotEq,
            AttributeValueModel::Text(x),
            AttributeValueModel::Text(y),
        ) == Ok::<bool, EvalError>(x != y),
        compare_values(ConditionOp::Eq, AttributeValueModel::Text(x), AttributeValueModel::Text(x))
            == Ok::<bool, EvalError>(true),
        x.len() == y.len() && x != y ==> compare_values(
            ConditionOp::Eq,
            AttributeValueModel::Text(x),
            AttributeValueModel::Text(y),
        ) == Ok::<bool, EvalError>(false),
        forall|op: ConditionOp|
            op != ConditionOp::Eq && op != ConditionOp::NotEq ==> #[trigger] compare_values(
                op,
                AttributeValueModel::Text(x),
                AttributeValueModel::Text(y),
            ) == Err::<bool, EvalError>(EvalError::NotApplicableToStrings(op)),
        lookup(attrs, name, turn, None) == Some(AttributeValueModel::Text(x)) ==> condition_outcome(
            ArgumentModel::MatchAttr(name, turn),
            ConditionOp::Eq,
            ArgumentModel::Value(ValueModel::Text(y)),
            attrs,
        ) == Ok::<bool, EvalError>(x == y),
{
}

/// Whether the argument is a reference to the attribute `name` of turn `turn` of the bot
/// `bot` (`None`: of the match itself).
pub open spec fn argument_reads(a: ArgumentModel, name: Seq<char>, turn: Option<u16>, bot: Option<i64>) -> bool {
    match a {
        ArgumentModel::Value(_) => false,
        ArgumentModel::MatchAttr(n, t) => n == name && t == turn && bot is None,
        ArgumentModel::BotAttr(n, t, id) => n == name && t == turn && bot == Some(id),
    }
}

/// Whether some argument of the expression is a reference to that attribute.
pub open spec fn expression_reads(e: ExprModel, name: Seq<char>, turn: Option<u16>, bot: Option<i64>) -> bool
    decreases e,
{
    match e {
        ExprModel::Condition(a, _, b) => argument_reads(a, name, turn, bot) || argument_reads(
            b,
            name,
            turn,
            bot,
        ),
        ExprModel::Paren(inner) => expression_reads(*inner, name, turn, bot),
        ExprModel::And(l, r) => expression_reads(*l, name, turn, bot) || expression_reads(
            *r,
            name,
            turn,
            bot,
        ),
        ExprModel::Or(l, r) => expression_reads(*l, name, turn, bot) || expression_reads(
            *r,
            name,
            turn,
            bot,
        ),
        ExprModel::Not(inner) => expression_reads(*inner, name, turn, bot),
    }
}

/// How many arguments of the expression are attribute references (constants are not).
pub open spec fn reference_count(e: ExprModel) -> nat
    decreases e,
{
    match e {
        ExprModel::Condition(a, _, b) => (if a is Value {
            0nat
        } else {
            1nat
        }) + (if b is Value {
            0nat
        } else {
            1nat
        }),
        ExprModel::Paren(inner) => reference_count(*inner),
        ExprModel::And(l, r) => reference_count(*l) + reference_count(*r),
        ExprModel::Or(l, r) => reference_count(*l) + reference_count(*r),
        ExprModel::Not(inner) => reference_count(*inner),
    }
}

/// Whether `needs` lists the attribute `name` of turn `turn` and bot `bot`.
pub open spec fn lists(needs: Seq<AttributeModel>, name: Seq<char>, turn: Option<u16>, bot: Option<i64>) -> bool {
    exists|i: int|
        0 <= i < needs.len() && #[trigger] needs[i].name == name && needs[i].turn == turn
            && needs[i].bot_id == bot
}

proof fn lemma_needs_are_references(e: ExprModel)
    ensures
        expr_needs(e).len() == reference_count(e),
        forall|i: int|
            0 <= i < expr_needs(e).len() ==> expression_reads(
                e,
                #[trigger] expr_needs(e)[i].name,
                expr_needs(e)[i].turn,
                expr_needs(e)[i].bot_id,
            ),
        forall|name: Seq<char>, turn: Option<u16>, bot: Option<i64>|
            #[trigger] expression_reads(e, name, turn, bot) ==> lists(expr_needs(e), name, turn, bot),
    decreases e,
{
    match e {
        ExprModel::Condition(a, op, b) => {
            let na = argument_needs(a);
            let nb = argument_needs(b);
            assert(expr_needs(e) == na + nb);
            assert forall|i: int| 0 <= i < expr_needs(e).len() implies expression_reads(
                e,
                #[trigger] expr_needs(e)[i].name,
                expr_needs(e)[i].turn,
                expr_needs(e)[i].bot_id,
            ) by {
                if i < na.len() {
                    assert(expr_needs(e)[i] == na[i]);
                } else {
                    assert(expr_needs(e)[i] == nb[i - na.len()]);
                }
            }
            assert forall|name: Seq<char>, turn: Option<u16>, bot: Option<i64>|
                #[trigger] expression_reads(e, name, turn, bot) implies lists(
                expr_needs(e),
                name,
                turn,
                bot,
            ) by {
                if argument_reads(a, name, turn, bot) {
                    assert(na.len() == 1 && na[0].name == name && na[0].turn == turn
                        && na[0].bot_id == bot);
                    assert(expr_needs(e)[0] == na[0]);
                    assert(expr_needs(e)[0].name == name);
                } else {
                    assert(nb.len() == 1 && nb[0].name == name && nb[0].turn == turn
                        && nb[0].bot_id == bot);
                    assert(expr_needs(e)[na.len() as int] == nb[0]);
                    assert(expr_needs(e)[na.len() as int].name == name);
                }
            }
        },
        ExprModel::Paren(inner) => {
            lemma_needs_are_references(*inner);
            assert forall|name: Seq<char>, turn: Option<u16>, bot: Option<i64>|
                #[trigger] expression_reads(e, name, turn, bot) implies lists(
                expr_needs(e),
                name,
                turn,
                bot,
            ) by {
                assert(expression_reads(*inner, name, turn, bot));
                assert(expr_needs(e) == expr_needs(*inner));
            }
        },
        ExprModel::Not(inner) => {
            lemma_needs_are_references(*inner);
            assert forall|name: Seq<char>, turn: Option<u16>, bot: Option<i64>|
                #[trigger] expression_reads(e, name, turn, bot) implies lists(
                expr_needs(e),
                name,
                turn,
                bot,
            ) by {
                assert(expression_reads(*inner, name, turn, bot));
                assert(expr_needs(e) == expr_needs(*inner));
            }
        },
        ExprModel::And(l, r) => {
            lemma_needs_are_references(*l);
            lemma_needs_are_references(*r);
            lemma_needs_split(e, *l, *r);
        },
        ExprModel::Or(l, r) => {
            lemma_needs_are_references(*l);
            lemma_needs_are_references(*r);
            lemma_needs_split(e, *l, *r);
        },
    }
}

proof fn lemma_needs_split(e: ExprModel, l: ExprModel, r: ExprModel)
    requires
        expr_needs(e) == expr_needs(l) + expr_needs(r),
        forall|name: Seq<char>, turn: Option<u16>, bot: Option<i64>|
            #[trigger] expression_reads(e, name, turn, bot) == (expression_reads(
                l,
                name,
                turn,
                bot,
            ) || expression_reads(r, name, turn, bot)),
        forall|i: int|
            0 <= i < expr_needs(l).len() ==> expression_reads(
                l,
                #[trigger] expr_needs(l)[i].name,
                expr_needs(l)[i].turn,
                expr_needs(l)[i].bot_id,
            ),
        forall|name: Seq<char>, turn: Option<u16>, bot: Option<i64>|
            #[trigger] expression_reads(l, name, turn, bot) ==> lists(expr_needs(l), name, turn, bot),
        forall|i: int|
            0 <= i < expr_needs(r).len() ==> expression_reads(
                r,
                #[trigger] expr_needs(r)[i].name,
                expr_needs(r)[i].turn,
                expr_needs(r)[i].bot_id,
            ),
        forall|name: Seq<char>, turn: Option<u16>, bot: Option<i64>|
            #[trigger] expression_reads(r, name, turn, bot) ==> lists(expr_needs(r), name, turn, bot),
    ensures
        forall|i: int|
            0 <= i < expr_needs(e).len() ==> expression_reads(
                e,
                #[trigger] expr_needs(e)[i].name,
                expr_needs(e)[i].turn,
                expr_needs(e)[i].bot_id,
            ),
        forall|name: Seq<char>, turn: Option<u16>, bot: Option<i64>|
            #[trigger] expression_reads(e, name, turn, bot) ==> lists(expr_needs(e), name, turn, bot),
{
    let nl = expr_needs(l);
    let nr = expr_needs(r);
    assert forall|i: int| 0 <= i < expr_needs(e).len() implies expression_reads(
        e,
        #[trigger] expr_needs(e)[i].name,
        expr_needs(e)[i].turn,
        expr_needs(e)[i].bot_id,
    ) by {
        if i < nl.len() {
            assert(expr_needs(e)[i] == nl[i]);
            assert(expression_reads(l, nl[i].name, nl[i].turn, nl[i].bot_id));
        } else {
            assert(expr_needs(e)[i] == nr[i - nl.len()]);
            assert(expression_reads(
                r,
                nr[i - nl.len()].name,
                nr[i - nl.len()].turn,
                nr[i - nl.len()].bot_id,
            ));
        }
    }
    assert forall|name: Seq<char>, turn: Option<u16>, bot: Option<i64>|
        #[trigger] expression_reads(e, name, turn, bot) implies lists(
        expr_needs(e),
        name,
        turn,
        bot,
    ) by {
        if expression_reads(l, name, turn, bot) {
            let i = choose|i: int|
                0 <= i < nl.len() && #[trigger] nl[i].name == name && nl[i].turn == turn
                    && nl[i].bot_id == bot;
            assert(expr_needs(e)[i] == nl[i]);
        } else {
            assert(expression_reads(r, name, turn, bot));
            let i = choose|i: int|
                0 <= i < nr.len() && #[trigger] nr[i].name == name && nr[i].turn == turn
                    && nr[i].bot_id == bot;
            assert(expr_needs(e)[nl.len() + i] == nr[i]);
        }
    }
}

/// The attributes that a filter needs are exactly those that its expression refers to: one
/// entry for each attribute reference among its arguments (a constant contributes none),
/// each entry an attribute that some argument refers to, and each attribute that an argument
/// refers to listed. A condition between two constants needs nothing.
pub proof fn law_needs_are_the_references(e: ExprModel, c1: ValueModel, op: ConditionOp, c2: ValueModel)
    ensures
        filter_needs(Some(e)).len() == reference_count(e),
        forall|i: int|
            0 <= i < filter_needs(Some(e)).len() ==> expression_reads(
                e,
                #[trigger] filter_needs(Some(e))[i].name,
                filter_needs(Some(e))[i].turn,
                filter_needs(Some(e))[i].bot_id,
            ),
        forall|name: Seq<char>, turn: Option<u16>, bot: Option<i64>|
            #[trigger] expression_reads(e, name, turn, bot) ==> lists(
                filter_needs(Some(e)),
                name,
                turn,
                bot,
            ),
        filter_needs(
            Some(ExprModel::Condition(ArgumentModel::Value(c1), op, ArgumentModel::Value(c2))),
        ).len() == 0,
{
    lemma_needs_are_references(e);
}

} // verus!
