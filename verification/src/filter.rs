use vstd::prelude::*;
use crate::ast::{
    expr_text, Argument, ArgumentModel, BotAttr, ConditionOp, Expr, ExprModel, MatchAttr, Value,
    ValueModel,
};
use crate::domain::{AttributeModel, AttributeValueModel, Match, MatchAttribute, MatchAttributeValue};
use crate::number::{float_eq, float_equal, float_le, float_less, float_lt, int_as_float_bits, int_to_float_bits};
use crate::parser::{parse, parse_text, FilterError, FilterErrorModel};

verus! {

/// Why a condition could not be decided for a match.
#[derive(Clone, Copy, Debug, PartialEq, Eq, Structural)]
pub enum EvalError {
    /// The match records no attribute of that name, bot and turn.
    NoSuchAttribute,
    /// An ordering comparison between two texts.
    NotApplicableToStrings(ConditionOp),
    /// A number compared with a text.
    TypeMismatch,
}

/// The value of the first attribute in `attrs` with this name, turn and bot (`None` for an
/// attribute of the match itself).
pub open spec fn lookup(
    attrs: Seq<AttributeModel>,
    name: Seq<char>,
    turn: Option<u16>,
    bot: Option<i64>,
) -> Option<AttributeValueModel>
    decreases attrs.len(),
{
    if attrs.len() == 0 {
        None
    } else if attrs[0].name == name && attrs[0].turn == turn && attrs[0].bot_id == bot {
        Some(attrs[0].value)
    } else {
        lookup(attrs.drop_first(), name, turn, bot)
    }
}

/// The value that an argument denotes for a match with attributes `attrs`.
pub open spec fn resolve(arg: ArgumentModel, attrs: Seq<AttributeModel>) -> Result<
    AttributeValueModel,
    EvalError,
> {
    match arg {
        ArgumentModel::Value(ValueModel::Number(bits, _)) => Ok(AttributeValueModel::Float(bits)),
        ArgumentModel::Value(ValueModel::Text(t)) => Ok(AttributeValueModel::Text(t)),
        ArgumentModel::MatchAttr(name, turn) => match lookup(attrs, name, turn, None) {
            Some(v) => Ok(v),
            None => Err(EvalError::NoSuchAttribute),
        },
        ArgumentModel::BotAttr(name, turn, id) => match lookup(attrs, name, turn, Some(id)) {
            Some(v) => Ok(v),
            None => Err(EvalError::NoSuchAttribute),
        },
    }
}

/// Integers are compared as the floating-point numbers they convert to.
pub open spec fn comparable(v: AttributeValueModel) -> AttributeValueModel {
    match v {
        AttributeValueModel::Integer(i) => AttributeValueModel::Float(int_as_float_bits(i as int)),
        other => other,
    }
}

/// Whether the floating-point comparison `x op y` holds.
pub open spec fn float_holds(op: ConditionOp, x: u64, y: u64) -> bool {
    match op {
        ConditionOp::Eq => float_eq(x, y),
        ConditionOp::NotEq => !float_eq(x, y),
        ConditionOp::Less => float_lt(x, y),
        ConditionOp::LessOrEqual => float_le(x, y),
        ConditionOp::Greater => float_lt(y, x),
        ConditionOp::GreaterOrEqual => float_le(y, x),
    }
}

/// The comparison `a op b` of two values: numbers by value, texts for equality only.
pub open spec fn compare_values(op: ConditionOp, a: AttributeValueModel, b: AttributeValueModel) -> Result<bool, EvalError> {
    match (comparable(a), comparable(b)) {
        (AttributeValueModel::Float(x), AttributeValueModel::Float(y)) => Ok(float_holds(op, x, y)),
        (AttributeValueModel::Text(x), AttributeValueModel::Text(y)) => match op {
            ConditionOp::Eq => Ok(x == y),
            ConditionOp::NotEq => Ok(x != y),
            _ => Err(EvalError::NotApplicableToStrings(op)),
        },
        _ => Err(EvalError::TypeMismatch),
    }
}

/// The outcome of the condition `a op b` for a match with attributes `attrs`; the left
/// argument is resolved first.
pub open spec fn condition_outcome(
    a: ArgumentModel,
    op: ConditionOp,
    b: ArgumentModel,
    attrs: Seq<AttributeModel>,
) -> Result<bool, EvalError> {
    match resolve(a, attrs) {
        Err(e) => Err(e),
        Ok(x) => match resolve(b, attrs) {
            Err(e) => Err(e),
            Ok(y) => compare_values(op, x, y),
        },
    }
}

/// The outcome of an expression for a match with attributes `attrs`. `AND` and `OR` decide
/// from their left side when it suffices, without looking at the right side.
pub open spec fn outcome(e: ExprModel, attrs: Seq<AttributeModel>) -> Result<bool, EvalError>
    decreases e,
{
    match e {
        ExprModel::Condition(a, op, b) => condition_outcome(a, op, b, attrs),
        ExprModel::Paren(inner) => outcome(*inner, attrs),
        ExprModel::And(l, r) => match outcome(*l, attrs) {
            Err(err) => Err(err),
            Ok(x) => if x {
                outcome(*r, attrs)
            } else {
                Ok(false)
            },
        },
        ExprModel::Or(l, r) => match outcome(*l, attrs) {
            Err(err) => Err(err),
            Ok(x) => if x {
                Ok(true)
            } else {
                outcome(*r, attrs)
            },
        },
        ExprModel::Not(inner) => match outcome(*inner, attrs) {
            Err(err) => Err(err),
            Ok(x) => Ok(!x),
        },
    }
}

/// Whether a filter accepts a match with attributes `attrs`: the empty filter accepts
/// every match, any other accepts a match when its expression holds for it; an expression
/// that cannot be decided does not hold.
pub open spec fn accepts(filter: Option<ExprModel>, attrs: Seq<AttributeModel>) -> bool {
    match filter {
        None => true,
        Some(e) => outcome(e, attrs) == Ok::<bool, EvalError>(true),
    }
}

/// The attribute that an argument reads, with the placeholder value `Integer(0)`.
pub open spec fn argument_needs(a: ArgumentModel) -> Seq<AttributeModel> {
    match a {
        ArgumentModel::Value(_) => seq![],
        ArgumentModel::MatchAttr(name, turn) => seq![
            AttributeModel { name, bot_id: None, turn, value: AttributeValueModel::Integer(0) },
        ],
        ArgumentModel::BotAttr(name, turn, id) => seq![
            AttributeModel {
                name,
                bot_id: Some(id),
                turn,
                value: AttributeValueModel::Integer(0),
            },
        ],
    }
}

/// The attributes that an expression reads, from left to right, repeats included.
pub open spec fn expr_needs(e: ExprModel) -> Seq<AttributeModel>
    decreases e,
{
    match e {
        ExprModel::Condition(a, _, b) => argument_needs(a) + argument_needs(b),
        ExprModel::Paren(inner) => expr_needs(*inner),
        ExprModel::And(l, r) => expr_needs(*l) + expr_needs(*r),
        ExprModel::Or(l, r) => expr_needs(*l) + expr_needs(*r),
        ExprModel::Not(inner) => expr_needs(*inner),
    }
}

/// The attributes that a filter reads.
pub open spec fn filter_needs(filter: Option<ExprModel>) -> Seq<AttributeModel> {
    match filter {
        None => seq![],
        Some(e) => expr_needs(e),
    }
}

/// The models of a sequence of attributes.
pub open spec fn attribute_views(v: Seq<MatchAttribute>) -> Seq<AttributeModel> {
    v.map_values(|a: MatchAttribute| a@)
}

fn same_turn(a: Option<u16>, b: Option<u16>) -> (res: bool)
    ensures
        res == (a == b),
{
    match (a, b) {
        (Some(x), Some(y)) => x == y,
        (None, None) => true,
        _ => false,
    }
}

fn find_attribute<'m>(m: &'m Match, name: &String, turn: Option<u16>, bot: Option<i64>) -> (res:
    Option<&'m MatchAttributeValue>)
    ensures
        match res {
            Some(v) => lookup(m.attribute_models(), name@, turn, bot) == Some(v@),
            None => lookup(m.attribute_models(), name@, turn, bot) == None::<AttributeValueModel>,
        },
{
    let ghost all = m.attribute_models();
    let mut i: usize = 0;
    assert(all.skip(0) =~= all);
    while i < m.attributes.len()
        invariant
            i <= m.attributes.len(),
            all == m.attribute_models(),
            all.len() == m.attributes.len(),
            lookup(all, name@, turn, bot) == lookup(all.skip(i as int), name@, turn, bot),
        decreases m.attributes.len() - i,
    {
        let a = &m.attributes[i];
        assert(all.skip(i as int)[0] == a@);
        let bot_matches = match (a.bot_id, bot) {
            (Some(x), Some(y)) => x.0 == y,
            (None, None) => true,
            _ => false,
        };
        if a.name == *name && same_turn(a.turn, turn) && bot_matches {
            return Some(&a.value);
        }
        assert(all.skip(i as int).drop_first() =~= all.skip(i + 1));
        i = i + 1;
    }
    assert(all.skip(i as int) =~= Seq::<AttributeModel>::empty());
    None
}

/// The value of the attribute of the match itself that `attr` names.
pub fn extract_match_attr<'m>(m: &'m Match, attr: &MatchAttr) -> (res: Result<
    &'m MatchAttributeValue,
    EvalError,
>)
    ensures
        match res {
            Ok(v) => resolve(ArgumentModel::MatchAttr(attr.name@, attr.turn), m.attribute_models())
                == Ok::<AttributeValueModel, EvalError>(v@),
            Err(e) => resolve(ArgumentModel::MatchAttr(attr.name@, attr.turn), m.attribute_models())
                == Err::<AttributeValueModel, EvalError>(e),
        },
{
    match find_attribute(m, &attr.name, attr.turn, None) {
        Some(v) => Ok(v),
        None => Err(EvalError::NoSuchAttribute),
    }
}

/// The value of the attribute of a bot that `attr` names.
pub fn extract_bot_attr<'m>(m: &'m Match, attr: &BotAttr) -> (res: Result<
    &'m MatchAttributeValue,
    EvalError,
>)
    ensures
        match res {
            Ok(v) => resolve(
                ArgumentModel::BotAttr(attr.name@, attr.turn, attr.bot_id.0),
                m.attribute_models(),
            ) == Ok::<AttributeValueModel, EvalError>(v@),
            Err(e) => resolve(
                ArgumentModel::BotAttr(attr.name@, attr.turn, attr.bot_id.0),
                m.attribute_models(),
            ) == Err::<AttributeValueModel, EvalError>(e),
        },
{
    match find_attribute(m, &attr.name, attr.turn, Some(attr.bot_id.0)) {
        Some(v) => Ok(v),
        None => Err(EvalError::NoSuchAttribute),
    }
}

/// A constant of a filter, as an attribute value: a number as a floating-point value.
impl From<Value> for MatchAttributeValue {
    fn from(v: Value) -> (res: MatchAttributeValue) {
        match v {
            Value::Number(n) => MatchAttributeValue::Float(n.bits),
            Value::String(t) => MatchAttributeValue::String(t),
        }
    }
}

impl vstd::std_specs::convert::FromSpecImpl<Value> for MatchAttributeValue {
    open spec fn obeys_from_spec() -> bool {
        true
    }

    open spec fn from_spec(v: Value) -> MatchAttributeValue {
        match v {
            Value::Number(n) => MatchAttributeValue::Float(n.bits),
            Value::String(t) => MatchAttributeValue::String(t),
        }
    }
}

fn resolve_argument(arg: &Argument, m: &Match) -> (res: Result<MatchAttributeValue, EvalError>)
    ensures
        match res {
            Ok(v) => resolve(arg@, m.attribute_models()) == Ok::<AttributeValueModel, EvalError>(
                v@,
            ),
            Err(e) => resolve(arg@, m.attribute_models()) == Err::<AttributeValueModel, EvalError>(
                e,
            ),
        },
{
    match arg {
        Argument::Value(v) => Ok(MatchAttributeValue::from(v.clone())),
        Argument::MatchAttr(a) => match extract_match_attr(m, a) {
            Ok(v) => Ok(v.clone()),
            Err(e) => Err(e),
        },
        Argument::BotAttr(a) => match extract_bot_attr(m, a) {
            Ok(v) => Ok(v.clone()),
            Err(e) => Err(e),
        },
    }
}

/// `a op b` on two floating-point patterns.
fn compare_floats(op: ConditionOp, x: u64, y: u64) -> (res: bool)
    ensures
        res == float_holds(op, x, y),
{
    match op {
        ConditionOp::Eq => float_equal(x, y),
        ConditionOp::NotEq => !float_equal(x, y),
        ConditionOp::Less => float_less(x, y),
        ConditionOp::LessOrEqual => float_less(x, y) || float_equal(x, y),
        ConditionOp::Greater => float_less(y, x),
        ConditionOp::GreaterOrEqual => float_less(y, x) || float_equal(y, x),
    }
}

/// The value with integers converted to floating point.
fn to_comparable(v: MatchAttributeValue) -> (res: MatchAttributeValue)
    ensures
        res@ == comparable(v@),
{
    match v {
        MatchAttributeValue::Integer(i) => MatchAttributeValue::Float(int_to_float_bits(i)),
        other => other,
    }
}

/// Decides the condition `arg1 op arg2` for the match `m`.
pub fn check_condition(arg1: &Argument, op: &ConditionOp, arg2: &Argument, m: &Match) -> (res:
    Result<bool, EvalError>)
    ensures
        res == condition_outcome(arg1@, *op, arg2@, m.attribute_models()),
{
    let a = match resolve_argument(arg1, m) {
        Ok(v) => v,
        Err(e) => return Err(e),
    };
    let b = match resolve_argument(arg2, m) {
        Ok(v) => v,
        Err(e) => return Err(e),
    };
    let a = to_comparable(a);
    let b = to_comparable(b);
    match (a, b) {
        (MatchAttributeValue::Float(x), MatchAttributeValue::Float(y)) => Ok(
            compare_floats(*op, x, y),
        ),
        (MatchAttributeValue::String(x), MatchAttributeValue::String(y)) => match op {
            ConditionOp::Eq => Ok(x == y),
            ConditionOp::NotEq => Ok(x != y),
            _ => Err(EvalError::NotApplicableToStrings(*op)),
        },
        _ => Err(EvalError::TypeMismatch),
    }
}

/// Decides the expression `expr` for the match `m`.
pub fn check_expr(expr: &Expr, m: &Match) -> (res: Result<bool, EvalError>)
    ensures
        res == outcome(expr@, m.attribute_models()),
    decreases expr,
{
    match expr {
        Expr::Condition(a, op, b) => check_condition(a, op, b, m),
        Expr::Paren(inner) => check_expr(inner, m),
        Expr::And(l, r) => {
            let x = check_expr(l, m)?;
            if x {
                check_expr(r, m)
            } else {
                Ok(false)
            }
        },
        Expr::Or(l, r) => {
            let x = check_expr(l, m)?;
            if x {
                Ok(true)
            } else {
                check_expr(r, m)
            }
        },
        Expr::Not(inner) => {
            let x = check_expr(inner, m)?;
            Ok(!x)
        },
    }
}

/// Appends to `res` the attribute that `arg` reads, if any.
pub fn collect_needed_attributes_from_arg(arg: &Argument, res: &mut Vec<MatchAttribute>)
    ensures
        attribute_views(final(res)@) == attribute_views(old(res)@) + argument_needs(arg@),
{
    let ghost before = res@;
    match arg {
        Argument::Value(_) => {
            assert(attribute_views(res@) =~= attribute_views(before) + argument_needs(arg@));
        },
        Argument::MatchAttr(a) => {
            let attr = MatchAttribute {
                name: a.name.clone(),
                bot_id: None,
                turn: a.turn,
                value: MatchAttributeValue::Integer(0),
            };
            res.push(attr);
            assert(attribute_views(res@) =~= attribute_views(before) + argument_needs(arg@));
        },
        Argument::BotAttr(a) => {
            let attr = MatchAttribute {
                name: a.name.clone(),
                bot_id: Some(a.bot_id),
                turn: a.turn,
                value: MatchAttributeValue::Integer(0),
            };
            res.push(attr);
            assert(attribute_views(res@) =~= attribute_views(before) + argument_needs(arg@));
        },
    }
}

/// Appends to `res` the attributes that `expr` reads, from left to right.
pub fn collect_needed_attributes(expr: &Expr, res: &mut Vec<MatchAttribute>)
    ensures
        attribute_views(final(res)@) == attribute_views(old(res)@) + expr_needs(expr@),
    decreases expr,
{
    let ghost before = attribute_views(res@);
    match expr {
        Expr::Condition(a, _, b) => {
            collect_needed_attributes_from_arg(a, res);
            collect_needed_attributes_from_arg(b, res);
            assert(attribute_views(res@) =~= before + expr_needs(expr@));
        },
        Expr::Paren(inner) => collect_needed_attributes(inner, res),
        Expr::And(l, r) => {
            collect_needed_attributes(l, res);
            collect_needed_attributes(r, res);
            assert(attribute_views(res@) =~= before + expr_needs(expr@));
        },
        Expr::Or(l, r) => {
            collect_needed_attributes(l, res);
            collect_needed_attributes(r, res);
            assert(attribute_views(res@) =~= before + expr_needs(expr@));
        },
        Expr::Not(inner) => collect_needed_attributes(inner, res),
    }
}

/// A filter on matches: no expression accepts every match.
pub struct MatchFilter {
    expr: Option<Expr>,
}

impl View for MatchFilter {
    type V = Option<ExprModel>;

    closed spec fn view(&self) -> Option<ExprModel> {
        match self.expr {
            Some(e) => Some(e@),
            None => None,
        }
    }
}

impl Clone for MatchFilter {
    fn clone(&self) -> (res: Self)
        ensures
            res@ == self@,
    {
        match &self.expr {
            Some(e) => MatchFilter { expr: Some(e.clone()) },
            None => MatchFilter { expr: None },
        }
    }
}

/// The filter that a text describes: the empty text describes the filter that accepts
/// every match; any other text must be a filter expression.
pub open spec fn filter_of_text(s: Seq<char>) -> Result<Option<ExprModel>, FilterErrorModel> {
    if s.len() == 0 {
        Ok(None)
    } else {
        match parse_text(s) {
            Ok(e) => Ok(Some(e)),
            Err(err) => Err(err),
        }
    }
}

/// How a filter is written: its expression, or the empty text.
pub open spec fn filter_text(filter: Option<ExprModel>) -> Seq<char> {
    match filter {
        Some(e) => expr_text(e),
        None => seq![],
    }
}

impl MatchFilter {
    /// The filter that accepts every match.
    pub fn accept_all() -> (res: Self)
        ensures
            res@ == None::<ExprModel>,
    {
        MatchFilter { expr: None }
    }

    /// The filter of the expression `expr`.
    pub fn from_expr(expr: Expr) -> (res: Self)
        ensures
            res@ == Some(expr@),
    {
        MatchFilter { expr: Some(expr) }
    }

    /// Reads a filter from its text.
    pub fn from_text(s: &str) -> (res: Result<Self, FilterError>)
        ensures
            res matches Ok(f) ==> filter_of_text(s@) == Ok::<Option<ExprModel>, FilterErrorModel>(
                f@,
            ),
            res matches Err(err) ==> filter_of_text(s@) == Err::<
                Option<ExprModel>,
                FilterErrorModel,
            >(err@),
    {
        if s.is_empty() {
            Ok(Self::accept_all())
        } else {
            match parse(s) {
                Ok(e) => Ok(MatchFilter { expr: Some(e) }),
                Err(err) => Err(err),
            }
        }
    }

    /// Whether the filter accepts the match `m`.
    pub fn matches(&self, m: &Match) -> (res: bool)
        ensures
            res == accepts(self@, m.attribute_models()),
    {
        match &self.expr {
            Some(e) => match check_expr(e, m) {
                Ok(b) => b,
                Err(_) => false,
            },
            None => true,
        }
    }

    /// The attributes that the filter reads, in the order in which they occur, each with
    /// the placeholder value `Integer(0)`.
    pub fn needed_attributes(&self) -> (res: Vec<MatchAttribute>)
        ensures
            attribute_views(res@) == filter_needs(self@),
    {
        let mut res: Vec<MatchAttribute> = Vec::new();
        assert(attribute_views(res@) =~= Seq::<AttributeModel>::empty());
        match &self.expr {
            Some(e) => {
                collect_needed_attributes(e, &mut res);
                assert(attribute_views(res@) =~= filter_needs(self@));
            },
            None => {},
        }
        res
    }

    /// The filter written out, as its `Display` shows it.
    pub fn to_text(&self) -> (res: String)
        ensures
            res@ == filter_text(self@),
    {
        match &self.expr {
            Some(e) => e.to_text(),
            None => String::new(),
        }
    }
}

impl std::str::FromStr for MatchFilter {
    type Err = FilterError;

    /// Reads a filter from its text, as `from_text` does.
    fn from_str(s: &str) -> (res: Result<Self, Self::Err>)
        ensures
            res matches Ok(f) ==> filter_of_text(s@) == Ok::<Option<ExprModel>, FilterErrorModel>(
                f@,
            ),
            res matches Err(err) ==> filter_of_text(s@) == Err::<
                Option<ExprModel>,
                FilterErrorModel,
            >(err@),
    {
        Self::from_text(s)
    }
}

} // verus!
