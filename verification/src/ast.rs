use vstd::prelude::*;
use crate::domain::BotId;
use crate::text::{decimal_text, push_chars, push_decimal, push_signed_decimal, push_str, signed_decimal_text, string_from_chars};

verus! {

/// The comparison of a condition.
#[derive(Clone, Copy, Debug, PartialEq, Eq, Structural)]
pub enum ConditionOp {
    Eq,
    NotEq,
    Less,
    LessOrEqual,
    Greater,
    GreaterOrEqual,
}

/// A number written in a filter: the binary64 pattern of its value, and the value as
/// Rust's `Display` prints it.
#[derive(Debug)]
pub struct FloatNumber {
    pub bits: u64,
    pub text: String,
}

/// A constant of a filter.
#[derive(Debug)]
pub enum Value {
    Number(FloatNumber),
    String(String),
}

/// An attribute of the match itself, for the whole match or for one turn.
#[derive(Debug)]
pub struct MatchAttr {
    pub name: String,
    pub turn: Option<u16>,
}

/// An attribute of one bot of the match, for the whole match or for one turn.
#[derive(Debug)]
pub struct BotAttr {
    pub name: String,
    pub turn: Option<u16>,
    pub bot_id: BotId,
}

/// One side of a condition.
#[derive(Debug)]
pub enum Argument {
    Value(Value),
    MatchAttr(MatchAttr),
    BotAttr(BotAttr),
}

/// A filter expression.
#[derive(Debug)]
pub enum Expr {
    Condition(Argument, ConditionOp, Argument),
    Paren(Box<Expr>),
    And(Box<Expr>, Box<Expr>),
    Or(Box<Expr>, Box<Expr>),
    Not(Box<Expr>),
}

impl View for ConditionOp {
    type V = ConditionOp;

    open spec fn view(&self) -> ConditionOp {
        *self
    }
}

/// The mathematical model of a constant.
pub enum ValueModel {
    Number(u64, Seq<char>),
    Text(Seq<char>),
}

/// The mathematical model of an argument; a bot attribute carries the bot's identifier.
pub enum ArgumentModel {
    Value(ValueModel),
    MatchAttr(Seq<char>, Option<u16>),
    BotAttr(Seq<char>, Option<u16>, i64),
}

/// The mathematical model of an expression.
pub enum ExprModel {
    Condition(ArgumentModel, ConditionOp, ArgumentModel),
    Paren(Box<ExprModel>),
    And(Box<ExprModel>, Box<ExprModel>),
    Or(Box<ExprModel>, Box<ExprModel>),
    Not(Box<ExprModel>),
}

impl View for Value {
    type V = ValueModel;

    open spec fn view(&self) -> ValueModel {
        match self {
            Value::Number(n) => ValueModel::Number(n.bits, n.text@),
            Value::String(s) => ValueModel::Text(s@),
        }
    }
}

impl View for Argument {
    type V = ArgumentModel;

    open spec fn view(&self) -> ArgumentModel {
        match self {
            Argument::Value(v) => ArgumentModel::Value(v@),
            Argument::MatchAttr(a) => ArgumentModel::MatchAttr(a.name@, a.turn),
            Argument::BotAttr(a) => ArgumentModel::BotAttr(a.name@, a.turn, a.bot_id.0),
        }
    }
}

impl View for Expr {
    type V = ExprModel;

    open spec fn view(&self) -> ExprModel
        decreases self,
    {
        match self {
            Expr::Condition(a, op, b) => ExprModel::Condition(a@, *op, b@),
            Expr::Paren(e) => ExprModel::Paren(Box::new((**e).view())),
            Expr::And(l, r) => ExprModel::And(Box::new((**l).view()), Box::new((**r).view())),
            Expr::Or(l, r) => ExprModel::Or(Box::new((**l).view()), Box::new((**r).view())),
            Expr::Not(e) => ExprModel::Not(Box::new((**e).view())),
        }
    }
}

impl Clone for FloatNumber {
    fn clone(&self) -> (res: Self)
        ensures
            res.bits == self.bits,
            res.text@ == self.text@,
    {
        FloatNumber { bits: self.bits, text: self.text.clone() }
    }
}

impl Clone for Value {
    fn clone(&self) -> (res: Self)
        ensures
            res@ == self@,
    {
        match self {
            Value::Number(n) => Value::Number(n.clone()),
            Value::String(t) => Value::String(t.clone()),
        }
    }
}

impl Clone for MatchAttr {
    fn clone(&self) -> (res: Self)
        ensures
            res.name@ == self.name@,
            res.turn == self.turn,
    {
        MatchAttr { name: self.name.clone(), turn: self.turn }
    }
}

impl Clone for BotAttr {
    fn clone(&self) -> (res: Self)
        ensures
            res.name@ == self.name@,
            res.turn == self.turn,
            res.bot_id == self.bot_id,
    {
        BotAttr { name: self.name.clone(), turn: self.turn, bot_id: self.bot_id }
    }
}

impl Clone for Argument {
    fn clone(&self) -> (res: Self)
        ensures
            res@ == self@,
    {
        match self {
            Argument::Value(v) => Argument::Value(v.clone()),
            Argument::MatchAttr(a) => Argument::MatchAttr(a.clone()),
            Argument::BotAttr(a) => Argument::BotAttr(a.clone()),
        }
    }
}

impl Clone for Expr {
    fn clone(&self) -> (res: Self)
        ensures
            res@ == self@,
        decreases self,
    {
        match self {
            Expr::Condition(a, op, b) => Expr::Condition(a.clone(), *op, b.clone()),
            Expr::Paren(e) => Expr::Paren(Box::new((**e).clone())),
            Expr::And(l, r) => Expr::And(Box::new((**l).clone()), Box::new((**r).clone())),
            Expr::Or(l, r) => Expr::Or(Box::new((**l).clone()), Box::new((**r).clone())),
            Expr::Not(e) => Expr::Not(Box::new((**e).clone())),
        }
    }
}

/// How a comparison is written.
pub open spec fn op_text(op: ConditionOp) -> Seq<char> {
    match op {
        ConditionOp::Eq => seq!['=', '='],
        ConditionOp::NotEq => seq!['!', '='],
        ConditionOp::Less => seq!['<'],
        ConditionOp::LessOrEqual => seq!['<', '='],
        ConditionOp::Greater => seq!['>'],
        ConditionOp::GreaterOrEqual => seq!['>', '='],
    }
}

/// How a constant is written: a number as printed, a text between double quotes.
pub open spec fn value_text(v: ValueModel) -> Seq<char> {
    match v {
        ValueModel::Number(_, shown) => shown,
        ValueModel::Text(t) => seq!['"'] + t + seq!['"'],
    }
}

/// `[turn]`, or nothing for a whole-match attribute.
pub open spec fn turn_text(turn: Option<u16>) -> Seq<char> {
    match turn {
        Some(t) => seq!['['] + decimal_text(t as nat) + seq![']'],
        None => seq![],
    }
}

/// How an argument is written: `match[turn].name` or `bot(id)[turn].name`.
pub open spec fn argument_text(a: ArgumentModel) -> Seq<char> {
    match a {
        ArgumentModel::Value(v) => value_text(v),
        ArgumentModel::MatchAttr(name, turn) => seq!['m', 'a', 't', 'c', 'h'] + turn_text(turn)
            + seq!['.'] + name,
        ArgumentModel::BotAttr(name, turn, id) => seq!['b', 'o', 't', '('] + signed_decimal_text(
            id as int,
        ) + seq![')'] + turn_text(turn) + seq!['.'] + name,
    }
}

/// How an expression is written: single spaces around comparisons and the upper-case
/// words `AND`, `OR` and `NOT`.
pub open spec fn expr_text(e: ExprModel) -> Seq<char>
    decreases e,
{
    match e {
        ExprModel::Condition(a, op, b) => argument_text(a) + seq![' '] + op_text(op) + seq![' ']
            + argument_text(b),
        ExprModel::Paren(inner) => seq!['('] + expr_text(*inner) + seq![')'],
        ExprModel::And(l, r) => expr_text(*l) + seq![' ', 'A', 'N', 'D', ' '] + expr_text(*r),
        ExprModel::Or(l, r) => expr_text(*l) + seq![' ', 'O', 'R', ' '] + expr_text(*r),
        ExprModel::Not(inner) => seq!['N', 'O', 'T', ' '] + expr_text(*inner),
    }
}

fn push_op_text(out: &mut Vec<char>, op: ConditionOp)
    ensures
        final(out)@ == old(out)@ + op_text(op),
{
    match op {
        ConditionOp::Eq => push_chars(out, &['=', '=']),
        ConditionOp::NotEq => push_chars(out, &['!', '=']),
        ConditionOp::Less => push_chars(out, &['<']),
        ConditionOp::LessOrEqual => push_chars(out, &['<', '=']),
        ConditionOp::Greater => push_chars(out, &['>']),
        ConditionOp::GreaterOrEqual => push_chars(out, &['>', '=']),
    }
}

fn push_turn_text(out: &mut Vec<char>, turn: Option<u16>)
    ensures
        final(out)@ == old(out)@ + turn_text(turn),
{
    match turn {
        Some(t) => {
            out.push('[');
            push_decimal(out, t as u64);
            out.push(']');
        },
        None => {},
    }
}

fn push_argument_text(out: &mut Vec<char>, a: &Argument)
    ensures
        final(out)@ == old(out)@ + argument_text(a@),
{
    match a {
        Argument::Value(Value::Number(n)) => push_str(out, n.text.as_str()),
        Argument::Value(Value::String(t)) => {
            out.push('"');
            push_str(out, t.as_str());
            out.push('"');
        },
        Argument::MatchAttr(m) => {
            push_chars(out, &['m', 'a', 't', 'c', 'h']);
            push_turn_text(out, m.turn);
            out.push('.');
            push_str(out, m.name.as_str());
        },
        Argument::BotAttr(b) => {
            push_chars(out, &['b', 'o', 't', '(']);
            push_signed_decimal(out, b.bot_id.0);
            out.push(')');
            push_turn_text(out, b.turn);
            out.push('.');
            push_str(out, b.name.as_str());
        },
    }
}

fn push_expr_text(out: &mut Vec<char>, e: &Expr)
    ensures
        final(out)@ == old(out)@ + expr_text(e@),
    decreases e,
{
    match e {
        Expr::Condition(a, op, b) => {
            push_argument_text(out, a);
            out.push(' ');
            push_op_text(out, *op);
            out.push(' ');
            push_argument_text(out, b);
        },
        Expr::Paren(inner) => {
            out.push('(');
            push_expr_text(out, inner);
            out.push(')');
        },
        Expr::And(l, r) => {
            push_expr_text(out, l);
            push_chars(out, &[' ', 'A', 'N', 'D', ' ']);
            push_expr_text(out, r);
        },
        Expr::Or(l, r) => {
            push_expr_text(out, l);
            push_chars(out, &[' ', 'O', 'R', ' ']);
            push_expr_text(out, r);
        },
        Expr::Not(inner) => {
            push_chars(out, &['N', 'O', 'T', ' ']);
            push_expr_text(out, inner);
        },
    }
}

impl ConditionOp {
    /// The operator written out, as its `Display` shows it.
    pub fn to_text(&self) -> (res: String)
        ensures
            res@ == op_text(*self),
    {
        let mut out: Vec<char> = Vec::new();
        push_op_text(&mut out, *self);
        string_from_chars(&out)
    }
}

impl Value {
    /// The constant written out, as its `Display` shows it.
    pub fn to_text(&self) -> (res: String)
        ensures
            res@ == value_text(self@),
    {
        let mut out: Vec<char> = Vec::new();
        let arg = Argument::Value(self.clone());
        push_argument_text(&mut out, &arg);
        string_from_chars(&out)
    }
}

impl MatchAttr {
    /// The attribute written out, as its `Display` shows it.
    pub fn to_text(&self) -> (res: String)
        ensures
            res@ == argument_text(ArgumentModel::MatchAttr(self.name@, self.turn)),
    {
        let mut out: Vec<char> = Vec::new();
        let arg = Argument::MatchAttr(self.clone());
        push_argument_text(&mut out, &arg);
        string_from_chars(&out)
    }
}

impl BotAttr {
    /// The attribute written out, as its `Display` shows it.
    pub fn to_text(&self) -> (res: String)
        ensures
            res@ == argument_text(ArgumentModel::BotAttr(self.name@, self.turn, self.bot_id.0)),
    {
        let mut out: Vec<char> = Vec::new();
        let arg = Argument::BotAttr(self.clone());
        push_argument_text(&mut out, &arg);
        string_from_chars(&out)
    }
}

impl Argument {
    /// The argument written out, as its `Display` shows it.
    pub fn to_text(&self) -> (res: String)
        ensures
            res@ == argument_text(self@),
    {
        let mut out: Vec<char> = Vec::new();
        push_argument_text(&mut out, self);
        string_from_chars(&out)
    }
}

impl Expr {
    /// The expression written out, as its `Display` shows it.
    pub fn to_text(&self) -> (res: String)
        ensures
            res@ == expr_text(self@),
    {
        let mut out: Vec<char> = Vec::new();
        push_expr_text(&mut out, self);
        string_from_chars(&out)
    }
}

} // verus!
