use vstd::prelude::*;
use crate::lexer::{i64_literal, read_i64, Parsed, Step};
use crate::number::{float_scan, scan_float};
use crate::text::chars_of;

verus! {

/// The identifier of a bot taking part in matches.
#[derive(Clone, Copy, Debug, PartialEq, Eq, Structural)]
pub struct BotId(pub i64);

impl BotId {
    /// The bot with identifier `id`.
    pub fn new(id: i64) -> (res: BotId)
        ensures
            res.0 == id,
    {
        BotId(id)
    }

    /// The identifier.
    pub fn value(&self) -> (res: i64)
        ensures
            res == self.0,
    {
        self.0
    }
}

impl View for BotId {
    type V = i64;

    open spec fn view(&self) -> i64 {
        self.0
    }
}

impl From<i64> for BotId {
    fn from(id: i64) -> (res: BotId) {
        BotId(id)
    }
}

impl vstd::std_specs::convert::FromSpecImpl<i64> for BotId {
    open spec fn obeys_from_spec() -> bool {
        true
    }

    open spec fn from_spec(v: i64) -> BotId {
        BotId(v)
    }
}

/// The value of an attribute recorded for a match.
#[derive(Debug)]
pub enum MatchAttributeValue {
    Integer(i64),
    /// A floating-point number, held as its IEEE-754 binary64 bit pattern.
    Float(u64),
    String(String),
}

impl Clone for MatchAttributeValue {
    fn clone(&self) -> (res: Self)
        ensures
            res@ == self@,
    {
        match self {
            MatchAttributeValue::Integer(v) => MatchAttributeValue::Integer(*v),
            MatchAttributeValue::Float(b) => MatchAttributeValue::Float(*b),
            MatchAttributeValue::String(s) => MatchAttributeValue::String(s.clone()),
        }
    }
}

/// The mathematical model of an attribute value.
pub enum AttributeValueModel {
    Integer(i64),
    Float(u64),
    Text(Seq<char>),
}

impl View for MatchAttributeValue {
    type V = AttributeValueModel;

    open spec fn view(&self) -> AttributeValueModel {
        match self {
            MatchAttributeValue::Integer(v) => AttributeValueModel::Integer(*v),
            MatchAttributeValue::Float(b) => AttributeValueModel::Float(*b),
            MatchAttributeValue::String(s) => AttributeValueModel::Text(s@),
        }
    }
}

/// How a recorded text is read as an attribute value: an integer when the whole text is a
/// decimal `i64`, else a floating-point number when the whole text is a number of the filter
/// language, else the text itself.
pub open spec fn attribute_value_of_text(text: String) -> MatchAttributeValue {
    match i64_literal(text@, 0) {
        Step::Done(v, n) if n == text@.len() => MatchAttributeValue::Integer(v),
        _ => match float_scan(text@) {
            Ok((left, bits, _)) if left == 0 => MatchAttributeValue::Float(bits),
            _ => MatchAttributeValue::String(text),
        },
    }
}

impl From<String> for MatchAttributeValue {
    fn from(text: String) -> (res: MatchAttributeValue) {
        let chars = chars_of(text.as_str());
        if let Parsed::Done(v, n) = read_i64(&chars, 0) {
            if n == chars.len() {
                return MatchAttributeValue::Integer(v);
            }
        }
        assert(chars@.skip(0) =~= chars@);
        if let Ok((left, bits, _)) = scan_float(&chars, 0) {
            if left == 0 {
                return MatchAttributeValue::Float(bits);
            }
        }
        MatchAttributeValue::String(text)
    }
}

impl vstd::std_specs::convert::FromSpecImpl<String> for MatchAttributeValue {
    open spec fn obeys_from_spec() -> bool {
        true
    }

    open spec fn from_spec(v: String) -> MatchAttributeValue {
        attribute_value_of_text(v)
    }
}

/// An attribute recorded for a match: of the match itself (`bot_id` is `None`) or of one of
/// its bots, for the whole match (`turn` is `None`) or for one turn.
#[derive(Clone, Debug)]
pub struct MatchAttribute {
    pub name: String,
    pub bot_id: Option<BotId>,
    pub turn: Option<u16>,
    pub value: MatchAttributeValue,
}

/// The mathematical model of an attribute.
pub struct AttributeModel {
    pub name: Seq<char>,
    pub bot_id: Option<i64>,
    pub turn: Option<u16>,
    pub value: AttributeValueModel,
}

impl View for MatchAttribute {
    type V = AttributeModel;

    open spec fn view(&self) -> AttributeModel {
        AttributeModel {
            name: self.name@,
            bot_id: match self.bot_id {
                Some(b) => Some(b.0),
                None => None,
            },
            turn: self.turn,
            value: self.value@,
        }
    }
}

/// A played match: its identifier, its bots and its recorded attributes.
#[derive(Clone, Debug)]
pub struct Match {
    pub id: i64,
    pub bots: Vec<BotId>,
    pub attributes: Vec<MatchAttribute>,
}

impl Match {
    /// A match with these bots and attributes.
    pub fn new(id: i64, bots: Vec<BotId>, attributes: Vec<MatchAttribute>) -> (res: Match)
        ensures
            res.id == id,
            res.bots@ == bots@,
            res.attributes@ == attributes@,
    {
        Match { id, bots, attributes }
    }

    /// The models of the recorded attributes, in order.
    pub open spec fn attribute_models(&self) -> Seq<AttributeModel> {
        self.attributes@.map_values(|a: MatchAttribute| a@)
    }
}

} // verus!
