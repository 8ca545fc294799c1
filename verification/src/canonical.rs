use vstd::prelude::*;
use crate::ast::{
    argument_text, expr_text, op_text, turn_text, value_text, ArgumentModel, ConditionOp,
    ExprModel, ValueModel,
};
use crate::filter::{filter_of_text, filter_text};
use crate::lexer::{
    ascii_lower, class_run, digits_value, has_tag, has_tag_no_case, i64_literal, identifier,
    in_class, is_ascii_digit, lemma_class_run_bound, lemma_class_run_members, space_run,
    string_literal, unsigned_literal, CharClass, Step,
};
use crate::number::float_scan;
use crate::parser::{
    and_tail_at, argument_at, bot_attr_at, condition_at, condition_op_at, dotted_name,
    expression_at, factor_at, factor_inner_at, lemma_and_tail_at_unfold,
    lemma_expression_at_unfold, lemma_factor_at_unfold, lemma_factor_inner_at_unfold,
    lemma_or_tail_at_unfold, lemma_parens_at_unfold, lemma_term_at_unfold, match_attr_at,
    optional_turn, or_tail_at, parens_at, parse_text, shifted, term_at, value_at, word_and,
    word_bot, word_match, word_not, word_or, FilterErrorModel,
};
use crate::text::{decimal_text, digit_char, signed_decimal_text};

verus! {

// The written form of an expression reads back as the same expression. The proof follows the
// grammar level by level: each lemma states what a parsing function returns when the text at
// its position is the written form of an expression of that level, followed by what may
// follow it (nothing, a space or a closing parenthesis).

/// A name that the grammar reads as an identifier.
pub open spec fn is_name(n: Seq<char>) -> bool {
    &&& n.len() > 0
    &&& !is_ascii_digit(n[0])
    &&& forall|i: int| 0 <= i < n.len() ==> in_class(#[trigger] n[i], CharClass::NameChar)
}

/// A text that the grammar reads as a string literal between quotes.
pub open spec fn is_quotable(t: Seq<char>) -> bool {
    &&& t.len() > 0
    &&& forall|i: int| 0 <= i < t.len() ==> #[trigger] t[i] != '"'
}

/// The shape in which Rust prints a binary64 value, as far as the grammar needs it: `NaN`,
/// `inf`, or a text starting with a digit or `-`.
pub open spec fn shown_like_float(t: Seq<char>) -> bool {
    t == seq!['N', 'a', 'N'] || t == seq!['i', 'n', 'f'] || (t.len() > 0 && (is_ascii_digit(t[0])
        || t[0] == '-'))
}

/// What may follow the written form of an expression: nothing, a space or `)`.
pub open spec fn may_follow(s: Seq<char>, q: int) -> bool {
    q == s.len() || (0 <= q < s.len() && (s[q] == ' ' || s[q] == ')'))
}

/// A number written as `shown` reads back, by nom's float grammar, as the value `bits`,
/// whatever may follow it.
pub open spec fn reads_back(bits: u64, shown: Seq<char>) -> bool {
    &&& shown_like_float(shown)
    &&& forall|r: Seq<char>|
        (r.len() == 0 || r[0] == ' ' || r[0] == ')') ==> #[trigger] float_scan(shown + r) == Ok::<
            (nat, u64, Seq<char>),
            bool,
        >((r.len(), bits, shown))
}

/// An argument whose names and texts the grammar reads back.
pub open spec fn argument_shaped(a: ArgumentModel) -> bool {
    match a {
        ArgumentModel::Value(ValueModel::Number(_, _)) => true,
        ArgumentModel::Value(ValueModel::Text(t)) => is_quotable(t),
        ArgumentModel::MatchAttr(name, _) => is_name(name),
        ArgumentModel::BotAttr(name, _, _) => is_name(name),
    }
}

/// An expression as the grammar builds it: `or` joins terms from the left, `and` joins
/// factors from the left, `not` applies to a condition or a parenthesised expression.
pub open spec fn expression_shaped(e: ExprModel) -> bool
    decreases e, 3nat,
{
    match e {
        ExprModel::Or(l, r) => expression_shaped(*l) && term_shaped(*r),
        _ => term_shaped(e),
    }
}

/// A term as the grammar builds it: factors joined by `and` from the left.
pub open spec fn term_shaped(e: ExprModel) -> bool
    decreases e, 2nat,
{
    match e {
        ExprModel::And(l, r) => term_shaped(*l) && factor_shaped(*r),
        _ => factor_shaped(e),
    }
}

/// A factor as the grammar builds it: a condition or a parenthesised expression, possibly
/// negated.
pub open spec fn factor_shaped(e: ExprModel) -> bool
    decreases e, 1nat,
{
    match e {
        ExprModel::Not(inner) => inner_shaped(*inner),
        _ => inner_shaped(e),
    }
}

/// A condition of shaped arguments, or a parenthesised shaped expression.
pub open spec fn inner_shaped(e: ExprModel) -> bool
    decreases e, 0nat,
{
    match e {
        ExprModel::Condition(a, _, b) => argument_shaped(a) && argument_shaped(b),
        ExprModel::Paren(inner) => expression_shaped(*inner),
        _ => false,
    }
}

/// Every number of the expression reads back as its value.
pub open spec fn numbers_read_back(e: ExprModel) -> bool
    decreases e,
{
    match e {
        ExprModel::Condition(a, _, b) => argument_reads_back(a) && argument_reads_back(b),
        ExprModel::Paren(inner) => numbers_read_back(*inner),
        ExprModel::And(l, r) => numbers_read_back(*l) && numbers_read_back(*r),
        ExprModel::Or(l, r) => numbers_read_back(*l) && numbers_read_back(*r),
        ExprModel::Not(inner) => numbers_read_back(*inner),
    }
}

/// A number argument reads back as its value; other arguments hold no number.
pub open spec fn argument_reads_back(a: ArgumentModel) -> bool {
    match a {
        ArgumentModel::Value(ValueModel::Number(bits, shown)) => reads_back(bits, shown),
        _ => true,
    }
}

proof fn lemma_has_tag_split(s: Seq<char>, p: int, a: Seq<char>, b: Seq<char>)
    requires
        has_tag(s, p, a + b),
    ensures
        has_tag(s, p, a),
        has_tag(s, p + a.len(), b),
{
    let whole = s.subrange(p, p + a.len() + b.len());
    assert(whole == a + b);
    assert forall|i: int| 0 <= i < a.len() implies s.subrange(p, p + a.len())[i] == a[i] by {
        assert(whole[i] == (a + b)[i]);
    }
    assert(s.subrange(p, p + a.len()) =~= a);
    assert forall|i: int| 0 <= i < b.len() implies s.subrange(
        p + a.len(),
        p + a.len() + b.len(),
    )[i] == b[i] by {
        assert(whole[a.len() + i] == (a + b)[a.len() + i]);
    }
    assert(s.subrange(p + a.len(), p + a.len() + b.len()) =~= b);
}

proof fn lemma_has_tag_char(s: Seq<char>, p: int, t: Seq<char>, i: int)
    requires
        has_tag(s, p, t),
        0 <= i < t.len(),
    ensures
        s[p + i] == t[i],
{
    assert(s.subrange(p, p + t.len())[i] == t[i]);
}

proof fn lemma_has_tag_skip(s: Seq<char>, p: int, t: Seq<char>)
    requires
        has_tag(s, p, t),
    ensures
        s.skip(p) == t + s.skip(p + t.len()),
{
    assert(s.skip(p) =~= t + s.skip(p + t.len())) by {
        assert forall|i: int| 0 <= i < t.len() implies s.skip(p)[i] == (t + s.skip(
            p + t.len(),
        ))[i] by {
            lemma_has_tag_char(s, p, t, i);
        }
    }
}

/// A run of `k` characters of a class that ends at a character outside it has length `k`.
proof fn lemma_class_run_block(s: Seq<char>, p: int, k: nat, class: CharClass)
    requires
        0 <= p,
        p + k <= s.len(),
        forall|i: int| p <= i < p + k ==> in_class(#[trigger] s[i], class),
        p + k == s.len() || !in_class(s[p + k], class),
    ensures
        class_run(s, p, class) == k,
    decreases k,
{
    if k > 0 {
        lemma_class_run_block(s, p + 1, (k - 1) as nat, class);
    }
}

/// The decimal notation of `n` is made of digits.
proof fn lemma_decimal_text_digits(n: nat)
    ensures
        decimal_text(n).len() > 0,
        forall|i: int| 0 <= i < decimal_text(n).len() ==> is_ascii_digit(#[trigger] decimal_text(n)[i]),
    decreases n,
{
    if n >= 10 {
        lemma_decimal_text_digits(n / 10);
    }
}

proof fn lemma_digit_char_value(d: nat)
    requires
        d < 10,
    ensures
        (digit_char(d) as int) - 48 == d,
        is_ascii_digit(digit_char(d)),
{
}

/// Reading the decimal notation of `n` gives `n`.
proof fn lemma_decimal_text_value(s: Seq<char>, p: int, n: nat)
    requires
        has_tag(s, p, decimal_text(n)),
    ensures
        digits_value(s, p, decimal_text(n).len()) == n,
    decreases n,
{
    let t = decimal_text(n);
    lemma_decimal_text_digits(n);
    lemma_has_tag_char(s, p, t, t.len() - 1);
    lemma_digit_char_value(n % 10);
    assert(digits_value(s, p, 0) == 0);
    if n >= 10 {
        let head = decimal_text(n / 10);
        assert(t =~= head + seq![digit_char(n % 10)]);
        lemma_has_tag_split(s, p, head, seq![digit_char(n % 10)]);
        lemma_decimal_text_value(s, p, n / 10);
        assert(digits_value(s, p, t.len()) == digits_value(s, p, head.len()) * 10 + ((s[p + t.len()
            - 1] as int) - 48) as nat);
    } else {
        assert(digits_value(s, p, 1) == digits_value(s, p, 0) * 10 + ((s[p] as int) - 48) as nat);
    }
}

/// Reading the decimal notation of `n`, when no digit follows it.
proof fn lemma_unsigned_literal(s: Seq<char>, p: int, n: nat, max: nat)
    requires
        has_tag(s, p, decimal_text(n)),
        p + decimal_text(n).len() == s.len() || !is_ascii_digit(s[p + decimal_text(n).len()]),
        n <= max,
    ensures
        unsigned_literal(s, p, max) == Step::Done(n, decimal_text(n).len()),
{
    let t = decimal_text(n);
    lemma_decimal_text_digits(n);
    assert forall|i: int| p <= i < p + t.len() implies in_class(#[trigger] s[i], CharClass::Digit) by {
        lemma_has_tag_char(s, p, t, i - p);
    }
    lemma_class_run_block(s, p, t.len(), CharClass::Digit);
    lemma_decimal_text_value(s, p, n);
}

/// A written word reads as the keyword `word` when its letters fold to those of `word`.
proof fn lemma_tag_no_case(s: Seq<char>, p: int, written: Seq<char>, word: Seq<char>)
    requires
        has_tag(s, p, written),
        written.len() == word.len(),
        forall|i: int| 0 <= i < word.len() ==> ascii_lower(#[trigger] written[i]) == word[i],
    ensures
        has_tag_no_case(s, p, word),
{
    assert forall|k: int| 0 <= k < word.len() implies #[trigger] ascii_lower(s[p + k]) == word[k] by {
        lemma_has_tag_char(s, p, written, k);
    }
}

/// A keyword does not start where a character that folds to another letter stands.
proof fn lemma_no_tag_no_case(s: Seq<char>, p: int, word: Seq<char>)
    requires
        word.len() > 0,
        0 <= p < s.len(),
        ascii_lower(s[p]) != word[0],
    ensures
        !has_tag_no_case(s, p, word),
{
    if has_tag_no_case(s, p, word) {
        assert(ascii_lower(s[p + 0]) == word[0]);
    }
}

/// `[turn]` before a `.`, or nothing.
proof fn lemma_optional_turn(s: Seq<char>, x: int, turn: Option<u16>)
    requires
        has_tag(s, x, turn_text(turn) + seq!['.']),
    ensures
        optional_turn(s, x) == (turn, turn_text(turn).len()),
{
    lemma_has_tag_split(s, x, turn_text(turn), seq!['.']);
    lemma_has_tag_char(s, x + turn_text(turn).len(), seq!['.'], 0);
    match turn {
        Some(t) => {
            let digits = decimal_text(t as nat);
            assert(turn_text(turn) =~= seq!['['] + (digits + seq![']']));
            lemma_has_tag_split(s, x, seq!['['], digits + seq![']']);
            lemma_has_tag_char(s, x, seq!['['], 0);
            lemma_has_tag_split(s, x + 1, digits, seq![']']);
            lemma_has_tag_char(s, x + 1 + digits.len(), seq![']'], 0);
            lemma_unsigned_literal(s, x + 1, t as nat, 0xffff);
        },
        None => {},
    }
}

/// `.name`, followed by what may follow an expression.
proof fn lemma_dotted_name(s: Seq<char>, x: int, name: Seq<char>)
    requires
        has_tag(s, x, seq!['.'] + name),
        is_name(name),
        may_follow(s, x + 1 + name.len()),
    ensures
        dotted_name(s, x) == Step::Done(name, name.len() + 1),
{
    lemma_has_tag_split(s, x, seq!['.'], name);
    lemma_has_tag_char(s, x, seq!['.'], 0);
    assert forall|i: int| x + 1 <= i < x + 1 + name.len() implies in_class(
        #[trigger] s[i],
        CharClass::NameChar,
    ) by {
        lemma_has_tag_char(s, x + 1, name, i - x - 1);
    }
    lemma_class_run_block(s, x + 1, name.len(), CharClass::NameChar);
    lemma_has_tag_char(s, x + 1, name, 0);
}

/// A quoted text.
proof fn lemma_quoted(s: Seq<char>, x: int, t: Seq<char>)
    requires
        has_tag(s, x, seq!['"'] + t + seq!['"']),
        is_quotable(t),
    ensures
        string_literal(s, x) == Step::Done(t, t.len() + 2),
{
    lemma_has_tag_split(s, x, seq!['"'] + t, seq!['"']);
    lemma_has_tag_split(s, x, seq!['"'], t);
    lemma_has_tag_char(s, x, seq!['"'], 0);
    lemma_has_tag_char(s, x + 1 + t.len(), seq!['"'], 0);
    assert forall|i: int| x + 1 <= i < x + 1 + t.len() implies in_class(
        #[trigger] s[i],
        CharClass::NotQuote,
    ) by {
        lemma_has_tag_char(s, x + 1, t, i - x - 1);
    }
    lemma_class_run_block(s, x + 1, t.len(), CharClass::NotQuote);
}

/// A bot identifier in decimal, before a `)`.
proof fn lemma_bot_id(s: Seq<char>, x: int, id: i64)
    requires
        has_tag(s, x, signed_decimal_text(id as int) + seq![')']),
    ensures
        i64_literal(s, x) == Step::Done(id, signed_decimal_text(id as int).len()),
{
    let written = signed_decimal_text(id as int);
    lemma_has_tag_split(s, x, written, seq![')']);
    lemma_has_tag_char(s, x + written.len(), seq![')'], 0);
    if id < 0 {
        let digits = decimal_text((-id) as nat);
        lemma_has_tag_split(s, x, seq!['-'], digits);
        lemma_has_tag_char(s, x, seq!['-'], 0);
        lemma_unsigned_literal(s, x + 1, (-id) as nat, 0x8000_0000_0000_0000);
    } else {
        let digits = decimal_text(id as nat);
        lemma_decimal_text_digits(id as nat);
        lemma_has_tag_char(s, x, digits, 0);
        lemma_unsigned_literal(s, x, id as nat, 0x7fff_ffff_ffff_ffff);
    }
}

proof fn lemma_match_attr_written(s: Seq<char>, x: int, name: Seq<char>, turn: Option<u16>)
    requires
        is_name(name),
        has_tag(s, x, argument_text(ArgumentModel::MatchAttr(name, turn))),
        may_follow(s, x + argument_text(ArgumentModel::MatchAttr(name, turn)).len()),
    ensures
        match_attr_at(s, x) == Step::Done(
            ArgumentModel::MatchAttr(name, turn),
            argument_text(ArgumentModel::MatchAttr(name, turn)).len(),
        ),
{
    let text = argument_text(ArgumentModel::MatchAttr(name, turn));
    let tt = turn_text(turn);
    assert(text =~= word_match() + ((tt + seq!['.']) + name));
    lemma_has_tag_split(s, x, word_match(), (tt + seq!['.']) + name);
    lemma_tag_no_case(s, x, word_match(), word_match());
    lemma_has_tag_split(s, x + 5, tt + seq!['.'], name);
    lemma_optional_turn(s, x + 5, turn);
    assert((tt + seq!['.']) + name =~= tt + (seq!['.'] + name));
    lemma_has_tag_split(s, x + 5, tt, seq!['.'] + name);
    lemma_dotted_name(s, x + 5 + tt.len(), name);
}

proof fn lemma_bot_attr_written(s: Seq<char>, x: int, name: Seq<char>, turn: Option<u16>, id: i64)
    requires
        is_name(name),
        has_tag(s, x, argument_text(ArgumentModel::BotAttr(name, turn, id))),
        may_follow(s, x + argument_text(ArgumentModel::BotAttr(name, turn, id)).len()),
    ensures
        match_attr_at(s, x) == Step::<ArgumentModel>::Error,
        bot_attr_at(s, x) == Step::Done(
            ArgumentModel::BotAttr(name, turn, id),
            argument_text(ArgumentModel::BotAttr(name, turn, id)).len(),
        ),
{
    let text = argument_text(ArgumentModel::BotAttr(name, turn, id));
    let tt = turn_text(turn);
    let written = signed_decimal_text(id as int);
    let rest = (written + seq![')']) + ((tt + seq!['.']) + name);
    assert(text =~= seq!['b', 'o', 't', '('] + rest);
    lemma_has_tag_split(s, x, seq!['b', 'o', 't', '('], rest);
    lemma_has_tag_char(s, x, seq!['b', 'o', 't', '('], 0);
    lemma_has_tag_char(s, x, seq!['b', 'o', 't', '('], 3);
    lemma_no_tag_no_case(s, x, word_match());
    assert(seq!['b', 'o', 't', '('] =~= word_bot() + seq!['(']);
    lemma_has_tag_split(s, x, word_bot(), seq!['(']);
    lemma_tag_no_case(s, x, word_bot(), word_bot());
    lemma_has_tag_split(s, x + 4, written + seq![')'], (tt + seq!['.']) + name);
    lemma_bot_id(s, x + 4, id);
    lemma_has_tag_split(s, x + 4, written, seq![')']);
    lemma_has_tag_char(s, x + 4 + written.len(), seq![')'], 0);
    let y = x + 5 + written.len();
    lemma_has_tag_split(s, y, tt + seq!['.'], name);
    lemma_optional_turn(s, y, turn);
    assert((tt + seq!['.']) + name =~= tt + (seq!['.'] + name));
    lemma_has_tag_split(s, y, tt, seq!['.'] + name);
    lemma_dotted_name(s, y + tt.len(), name);
}

proof fn lemma_value_written(s: Seq<char>, x: int, v: ValueModel)
    requires
        argument_shaped(ArgumentModel::Value(v)),
        argument_reads_back(ArgumentModel::Value(v)),
        has_tag(s, x, value_text(v)),
        may_follow(s, x + value_text(v).len()),
    ensures
        match_attr_at(s, x) == Step::<ArgumentModel>::Error,
        bot_attr_at(s, x) == Step::<ArgumentModel>::Error,
        value_at(s, x) == Step::Done(ArgumentModel::Value(v), value_text(v).len()),
{
    let text = value_text(v);
    lemma_has_tag_char(s, x, text, 0);
    match v {
        ValueModel::Text(t) => {
            lemma_no_tag_no_case(s, x, word_match());
            lemma_no_tag_no_case(s, x, word_bot());
            lemma_quoted(s, x, t);
        },
        ValueModel::Number(bits, shown) => {
            lemma_no_tag_no_case(s, x, word_match());
            lemma_no_tag_no_case(s, x, word_bot());
            lemma_has_tag_skip(s, x, shown);
            let r = s.skip(x + text.len());
            assert(r.len() == 0 || r[0] == ' ' || r[0] == ')');
            assert(float_scan(shown + r) == Ok::<(nat, u64, Seq<char>), bool>(
                (r.len(), bits, shown),
            ));
        },
    }
}

/// The written form of an argument, after spaces and before what may follow an expression.
proof fn lemma_argument(a: ArgumentModel, s: Seq<char>, p: int)
    requires
        0 <= p <= s.len(),
        argument_shaped(a),
        argument_reads_back(a),
        has_tag(s, p + space_run(s, p), argument_text(a)),
        may_follow(s, p + space_run(s, p) + argument_text(a).len()),
    ensures
        argument_at(s, p) == Step::Done(
            a,
            space_run(s, p) + argument_text(a).len() + space_run(
                s,
                p + space_run(s, p) + argument_text(a).len(),
            ),
        ),
{
    let x = p + space_run(s, p);
    match a {
        ArgumentModel::MatchAttr(name, turn) => lemma_match_attr_written(s, x, name, turn),
        ArgumentModel::BotAttr(name, turn, id) => lemma_bot_attr_written(s, x, name, turn, id),
        ArgumentModel::Value(v) => lemma_value_written(s, x, v),
    }
}

/// A single space before a character that is not a space.
proof fn lemma_one_space(s: Seq<char>, y: int)
    requires
        0 <= y < s.len(),
        s[y] == ' ',
        y + 1 == s.len() || !in_class(s[y + 1], CharClass::Space),
    ensures
        space_run(s, y) == 1,
{
    assert(class_run(s, y + 1, CharClass::Space) == 0);
    assert(class_run(s, y, CharClass::Space) == 1 + class_run(s, y + 1, CharClass::Space));
}

/// No space before a character that is not a space.
proof fn lemma_no_space(s: Seq<char>, y: int)
    requires
        0 <= y,
        y == s.len() || (y < s.len() && !in_class(s[y], CharClass::Space)),
    ensures
        space_run(s, y) == 0,
{
}

proof fn lemma_no_tag(s: Seq<char>, y: int, t: Seq<char>, i: int)
    requires
        0 <= i < t.len(),
        0 <= y + i < s.len(),
        s[y + i] != t[i],
    ensures
        !has_tag(s, y, t),
{
    if has_tag(s, y, t) {
        lemma_has_tag_char(s, y, t, i);
    }
}

/// The first character of a written argument is not a space.
proof fn lemma_argument_first_char(a: ArgumentModel)
    requires
        argument_shaped(a),
        argument_reads_back(a),
    ensures
        argument_text(a).len() > 0,
        !in_class(argument_text(a)[0], CharClass::Space),
        argument_text(a)[0] != '(',
        argument_text(a)[0] == 'n' || argument_text(a)[0] == 'N' ==> argument_text(a).len() > 1
            && argument_text(a)[1] == 'a',
{
    let t = argument_text(a);
    match a {
        ArgumentModel::Value(ValueModel::Number(_, shown)) => {
            if shown == seq!['N', 'a', 'N'] {
                assert(t[0] == 'N' && t[1] == 'a');
            } else if shown == seq!['i', 'n', 'f'] {
                assert(t[0] == 'i');
            }
        },
        ArgumentModel::Value(ValueModel::Text(x)) => {
            assert(t[0] == '"');
        },
        ArgumentModel::MatchAttr(name, turn) => {
            assert(t[0] == 'm');
        },
        ArgumentModel::BotAttr(name, turn, id) => {
            assert(t[0] == 'b');
        },
    }
}

/// A written comparison operator, before a space.
proof fn lemma_condition_op(s: Seq<char>, y: int, op: ConditionOp)
    requires
        has_tag(s, y, op_text(op) + seq![' ']),
    ensures
        condition_op_at(s, y) == Step::Done(op, op_text(op).len()),
{
    let o = op_text(op);
    lemma_has_tag_split(s, y, o, seq![' ']);
    lemma_has_tag_char(s, y, o, 0);
    lemma_has_tag_char(s, y + o.len(), seq![' '], 0);
    if o.len() == 2 {
        lemma_has_tag_char(s, y, o, 1);
    }
    match op {
        ConditionOp::Eq => {},
        ConditionOp::NotEq => {
            lemma_no_tag(s, y, seq!['=', '='], 0);
        },
        ConditionOp::LessOrEqual => {
            lemma_no_tag(s, y, seq!['=', '='], 0);
            lemma_no_tag(s, y, seq!['!', '='], 0);
        },
        ConditionOp::GreaterOrEqual => {
            lemma_no_tag(s, y, seq!['=', '='], 0);
            lemma_no_tag(s, y, seq!['!', '='], 0);
            lemma_no_tag(s, y, seq!['<', '='], 0);
        },
        ConditionOp::Less => {
            lemma_no_tag(s, y, seq!['=', '='], 0);
            lemma_no_tag(s, y, seq!['!', '='], 0);
            lemma_no_tag(s, y, seq!['<', '='], 1);
            lemma_no_tag(s, y, seq!['>', '='], 0);
        },
        ConditionOp::Greater => {
            lemma_no_tag(s, y, seq!['=', '='], 0);
            lemma_no_tag(s, y, seq!['!', '='], 0);
            lemma_no_tag(s, y, seq!['<', '='], 0);
            lemma_no_tag(s, y, seq!['>', '='], 1);
            lemma_no_tag(s, y, seq!['<'], 0);
        },
    }
}

/// The written form of an argument, after spaces and before a single space.
proof fn lemma_argument_before_space(a: ArgumentModel, s: Seq<char>, p: int)
    requires
        0 <= p <= s.len(),
        argument_shaped(a),
        argument_reads_back(a),
        has_tag(s, p + space_run(s, p), argument_text(a)),
        p + space_run(s, p) + argument_text(a).len() + 1 < s.len(),
        s[p + space_run(s, p) + argument_text(a).len()] == ' ',
        !in_class(s[p + space_run(s, p) + argument_text(a).len() + 1], CharClass::Space),
    ensures
        argument_at(s, p) == Step::Done(a, space_run(s, p) + argument_text(a).len() + 1),
{
    lemma_one_space(s, p + space_run(s, p) + argument_text(a).len());
    lemma_argument(a, s, p);
}

/// The written form of an argument after a single space.
proof fn lemma_argument_after_space(b: ArgumentModel, s: Seq<char>, z: int)
    requires
        0 <= z < s.len(),
        s[z] == ' ',
        argument_shaped(b),
        argument_reads_back(b),
        has_tag(s, z + 1, argument_text(b)),
        may_follow(s, z + 1 + argument_text(b).len()),
    ensures
        argument_at(s, z) == Step::Done(
            b,
            1 + argument_text(b).len() + space_run(s, z + 1 + argument_text(b).len()),
        ),
{
    lemma_argument_first_char(b);
    lemma_has_tag_char(s, z + 1, argument_text(b), 0);
    lemma_one_space(s, z);
    lemma_argument(b, s, z);
}

/// Where the parts of a written condition stand.
proof fn lemma_condition_geometry(ta: Seq<char>, o: Seq<char>, tb: Seq<char>, s: Seq<char>, x: int)
    requires
        has_tag(s, x, ta + seq![' '] + o + seq![' '] + tb),
        o.len() > 0,
        !in_class(o[0], CharClass::Space),
    ensures
        has_tag(s, x, ta),
        s[x + ta.len()] == ' ',
        !in_class(s[x + ta.len() + 1], CharClass::Space),
        has_tag(s, x + ta.len() + 1, o + seq![' ']),
        s[x + ta.len() + 1 + o.len()] == ' ',
        has_tag(s, x + ta.len() + 2 + o.len(), tb),
{
    let y = x + ta.len() + 1;
    let z = y + o.len();
    assert(ta + seq![' '] + o + seq![' '] + tb =~= ta + (seq![' '] + (o + (seq![' '] + tb))));
    lemma_has_tag_split(s, x, ta, seq![' '] + (o + (seq![' '] + tb)));
    lemma_has_tag_split(s, x + ta.len(), seq![' '], o + (seq![' '] + tb));
    lemma_has_tag_char(s, x + ta.len(), seq![' '], 0);
    assert(o + (seq![' '] + tb) =~= (o + seq![' ']) + tb);
    lemma_has_tag_split(s, y, o + seq![' '], tb);
    lemma_has_tag_split(s, y, o, seq![' '] + tb);
    lemma_has_tag_char(s, y, o, 0);
    lemma_has_tag_split(s, z, seq![' '], tb);
    lemma_has_tag_char(s, z, seq![' '], 0);
}

/// The written form of a condition, after spaces and before what may follow an expression.
proof fn lemma_condition(a: ArgumentModel, op: ConditionOp, b: ArgumentModel, s: Seq<char>, p: int)
    requires
        0 <= p <= s.len(),
        argument_shaped(a),
        argument_shaped(b),
        argument_reads_back(a),
        argument_reads_back(b),
        has_tag(s, p + space_run(s, p), expr_text(ExprModel::Condition(a, op, b))),
        may_follow(
            s,
            p + space_run(s, p) + expr_text(ExprModel::Condition(a, op, b)).len(),
        ),
    ensures
        condition_at(s, p) == Step::Done(
            ExprModel::Condition(a, op, b),
            space_run(s, p) + expr_text(ExprModel::Condition(a, op, b)).len() + space_run(
                s,
                p + space_run(s, p) + expr_text(ExprModel::Condition(a, op, b)).len(),
            ),
        ),
{
    let x = p + space_run(s, p);
    let ta = argument_text(a);
    let o = op_text(op);
    let y = x + ta.len() + 1;
    assert(o.len() > 0 && !in_class(o[0], CharClass::Space));
    lemma_condition_geometry(ta, o, argument_text(b), s, x);
    lemma_argument_before_space(a, s, p);
    lemma_condition_op(s, y, op);
    lemma_argument_after_space(b, s, y + o.len());
}

/// The written form `t` stands at `p` after spaces, and before what may follow an expression.
pub open spec fn placed(s: Seq<char>, p: int, t: Seq<char>) -> bool {
    &&& 0 <= p <= s.len()
    &&& has_tag(s, p + space_run(s, p), t)
    &&& may_follow(s, p + space_run(s, p) + t.len())
}

/// Where the spaces after the written form `t`, placed at `p`, end.
pub open spec fn resume(s: Seq<char>, p: int, t: Seq<char>) -> int {
    p + space_run(s, p) + t.len() + space_run(s, p + space_run(s, p) + t.len())
}

proof fn lemma_resume_bound(s: Seq<char>, p: int, t: Seq<char>)
    requires
        placed(s, p, t),
    ensures
        p <= resume(s, p, t) <= s.len(),
{
    lemma_class_run_bound(s, p + space_run(s, p) + t.len(), CharClass::Space);
}

proof fn lemma_shaped_levels(e: ExprModel)
    ensures
        inner_shaped(e) ==> factor_shaped(e),
        factor_shaped(e) ==> term_shaped(e),
        term_shaped(e) ==> expression_shaped(e),
        expression_shaped(e) && !(e is Or) ==> term_shaped(e),
        term_shaped(e) && !(e is And) ==> factor_shaped(e),
        factor_shaped(e) && !(e is Not) ==> inner_shaped(e),
{
    match e {
        ExprModel::Or(l, r) => {
            assert(!inner_shaped(e));
            assert(!factor_shaped(e));
            assert(!term_shaped(e));
        },
        ExprModel::And(l, r) => {
            assert(!inner_shaped(e));
            assert(!factor_shaped(e));
        },
        ExprModel::Not(i) => {
            assert(!inner_shaped(e));
        },
        _ => {},
    }
}

/// The written form of a shaped expression is not empty and does not start with a space.
/// Unless it is a negation, it does not start with the keyword `not`.
proof fn lemma_first_char(e: ExprModel)
    requires
        expression_shaped(e),
        numbers_read_back(e),
    ensures
        expr_text(e).len() > 0,
        !in_class(expr_text(e)[0], CharClass::Space),
        inner_shaped(e) && (expr_text(e)[0] == 'n' || expr_text(e)[0] == 'N') ==> expr_text(e).len()
            > 1 && expr_text(e)[1] == 'a',
        e is Paren ==> expr_text(e)[0] == '(',
        e is Not ==> expr_text(e)[0] == 'N' && expr_text(e).len() > 1 && expr_text(e)[1] == 'O',
    decreases e,
{
    lemma_shaped_levels(e);
    let t = expr_text(e);
    match e {
        ExprModel::Condition(a, op, b) => {
            lemma_argument_first_char(a);
            let ta = argument_text(a);
            let rest = seq![' '] + (op_text(op) + (seq![' '] + argument_text(b)));
            assert(t =~= ta + rest);
            assert(t[0] == ta[0]);
            if ta.len() > 1 {
                assert(t[1] == ta[1]);
            }
        },
        ExprModel::Paren(inner) => {},
        ExprModel::And(l, r) => {
            lemma_shaped_levels(*l);
            lemma_first_char(*l);
            assert(t[0] == expr_text(*l)[0]);
        },
        ExprModel::Or(l, r) => {
            lemma_first_char(*l);
            assert(t[0] == expr_text(*l)[0]);
        },
        ExprModel::Not(inner) => {},
    }
}

/// `left word right` placed at `p`, where `word` is written between single spaces.
proof fn lemma_binary_geometry(
    s: Seq<char>,
    p: int,
    left: Seq<char>,
    word: Seq<char>,
    right: Seq<char>,
)
    requires
        placed(s, p, left + (seq![' '] + word + seq![' '] + right)),
        word.len() > 0,
        !in_class(word[0], CharClass::Space),
        right.len() > 0,
        !in_class(right[0], CharClass::Space),
    ensures
        placed(s, p, left),
        resume(s, p, left) == p + space_run(s, p) + left.len() + 1,
        has_tag(s, resume(s, p, left), word),
        placed(s, resume(s, p, left) + word.len(), right),
        space_run(s, resume(s, p, left) + word.len()) == 1,
        resume(s, resume(s, p, left) + word.len(), right) == resume(
            s,
            p,
            left + (seq![' '] + word + seq![' '] + right),
        ),
{
    let x = p + space_run(s, p);
    let k = x + left.len() + 1;
    let whole = left + (seq![' '] + word + seq![' '] + right);
    lemma_has_tag_split(s, x, left, seq![' '] + word + seq![' '] + right);
    assert(seq![' '] + word + seq![' '] + right =~= seq![' '] + (word + (seq![' '] + right)));
    lemma_has_tag_split(s, x + left.len(), seq![' '], word + (seq![' '] + right));
    lemma_has_tag_char(s, x + left.len(), seq![' '], 0);
    lemma_has_tag_split(s, k, word, seq![' '] + right);
    lemma_has_tag_char(s, k, word, 0);
    lemma_one_space(s, x + left.len());
    lemma_has_tag_split(s, k + word.len(), seq![' '], right);
    lemma_has_tag_char(s, k + word.len(), seq![' '], 0);
    lemma_has_tag_char(s, k + word.len() + 1, right, 0);
    lemma_one_space(s, k + word.len());
}

/// The written form of a factor, placed at `p`.
proof fn lemma_factor(e: ExprModel, s: Seq<char>, p: int)
    requires
        factor_shaped(e),
        numbers_read_back(e),
        placed(s, p, expr_text(e)),
    ensures
        factor_at(s, p) == Step::Done(e, (resume(s, p, expr_text(e)) - p) as nat),
    decreases e, 1nat,
{
    let t = expr_text(e);
    let x = p + space_run(s, p);
    lemma_shaped_levels(e);
    lemma_first_char(e);
    lemma_resume_bound(s, p, t);
    lemma_factor_at_unfold(s, p);
    match e {
        ExprModel::Not(inner) => {
            let ti = expr_text(*inner);
            assert(t =~= seq!['N', 'O', 'T'] + (seq![' '] + ti));
            lemma_has_tag_split(s, x, seq!['N', 'O', 'T'], seq![' '] + ti);
            lemma_tag_no_case(s, x, seq!['N', 'O', 'T'], word_not());
            lemma_has_tag_split(s, x + 3, seq![' '], ti);
            lemma_has_tag_char(s, x + 3, seq![' '], 0);
            lemma_shaped_levels(*inner);
            lemma_first_char(*inner);
            lemma_has_tag_char(s, x + 4, ti, 0);
            lemma_one_space(s, x + 3);
            lemma_no_space(s, x + 4);
            lemma_inner(*inner, s, x + 4);
        },
        _ => {
            lemma_has_tag_char(s, x, t, 0);
            if t[0] == 'n' || t[0] == 'N' {
                lemma_has_tag_char(s, x, t, 1);
                if has_tag_no_case(s, x, word_not()) {
                    assert(ascii_lower(s[x + 1]) == word_not()[1]);
                }
            } else {
                lemma_no_tag_no_case(s, x, word_not());
            }
            lemma_inner(e, s, p);
        },
    }
}

/// The written form of a condition or of a parenthesised expression, placed at `p`.
proof fn lemma_inner(e: ExprModel, s: Seq<char>, p: int)
    requires
        inner_shaped(e),
        numbers_read_back(e),
        placed(s, p, expr_text(e)),
    ensures
        factor_inner_at(s, p) == Step::Done(e, (resume(s, p, expr_text(e)) - p) as nat),
    decreases e, 0nat,
{
    let t = expr_text(e);
    let x = p + space_run(s, p);
    lemma_factor_inner_at_unfold(s, p);
    match e {
        ExprModel::Condition(a, op, b) => {
            lemma_condition(a, op, b, s, p);
        },
        ExprModel::Paren(inner) => {
            lemma_has_tag_char(s, x, t, 0);
            lemma_paren_not_condition(s, p);
            lemma_parens(*inner, s, p);
        },
        _ => {},
    }
}

/// Text that starts with `(` is not a condition.
proof fn lemma_paren_not_condition(s: Seq<char>, p: int)
    requires
        0 <= p,
        p + space_run(s, p) < s.len(),
        s[p + space_run(s, p)] == '(',
    ensures
        condition_at(s, p) == Step::<ExprModel>::Error,
{
    let x = p + space_run(s, p);
    lemma_no_tag_no_case(s, x, word_match());
    lemma_no_tag_no_case(s, x, word_bot());
    assert(argument_at(s, p) == Step::<ArgumentModel>::Error);
}

/// The written form of a parenthesised expression, placed at `p`.
proof fn lemma_parens(inner: ExprModel, s: Seq<char>, p: int)
    requires
        expression_shaped(inner),
        numbers_read_back(inner),
        placed(s, p, expr_text(ExprModel::Paren(Box::new(inner)))),
    ensures
        parens_at(s, p) == Step::Done(
            ExprModel::Paren(Box::new(inner)),
            (resume(s, p, expr_text(ExprModel::Paren(Box::new(inner)))) - p) as nat,
        ),
    decreases inner, 4nat,
{
    let t = expr_text(ExprModel::Paren(Box::new(inner)));
    let ti = expr_text(inner);
    let x = p + space_run(s, p);
    let y = x + 1 + ti.len();
    assert(t =~= seq!['('] + (ti + seq![')']));
    assert(has_tag(s, x + 1, ti) && s[x] == '(' && s[y] == ')') by {
        lemma_has_tag_split(s, x, seq!['('], ti + seq![')']);
        lemma_has_tag_char(s, x, seq!['('], 0);
        lemma_has_tag_split(s, x + 1, ti, seq![')']);
        lemma_has_tag_char(s, y, seq![')'], 0);
    }
    assert(expression_at(s, x + 1) == Step::Done(inner, ti.len())) by {
        lemma_first_char(inner);
        lemma_has_tag_char(s, x + 1, ti, 0);
        lemma_no_space(s, x + 1);
        lemma_no_space(s, y);
        lemma_no_tag_no_case(s, y, word_and());
        lemma_no_tag_no_case(s, y, word_or());
        lemma_expression(inner, s, x + 1);
        lemma_or_tail_at_unfold(s, y, inner);
    }
    lemma_class_run_bound(s, y + 1, CharClass::Space);
    lemma_parens_at_unfold(s, p);
}

/// The written form of a term, placed at `p`: the `and` repetitions continue after it.
proof fn lemma_term(e: ExprModel, s: Seq<char>, p: int)
    requires
        term_shaped(e),
        numbers_read_back(e),
        placed(s, p, expr_text(e)),
    ensures
        term_at(s, p) == shifted(
            and_tail_at(s, resume(s, p, expr_text(e)), e),
            resume(s, p, expr_text(e)) - p,
        ),
    decreases e, 2nat,
{
    let t = expr_text(e);
    lemma_resume_bound(s, p, t);
    lemma_shaped_levels(e);
    match e {
        ExprModel::And(l, r) => {
            let tl = expr_text(*l);
            let tr = expr_text(*r);
            let word = seq!['A', 'N', 'D'];
            lemma_shaped_levels(*r);
            lemma_first_char(*r);
            assert(t =~= tl + (seq![' '] + word + seq![' '] + tr));
            lemma_binary_geometry(s, p, tl, word, tr);
            let k = resume(s, p, tl);
            assert(term_at(s, p) == shifted(and_tail_at(s, k, *l), k - p)) by {
                lemma_term(*l, s, p);
            }
            assert(and_tail_at(s, k, *l) == shifted(
                and_tail_at(s, resume(s, p, t), e),
                resume(s, p, t) - k,
            )) by {
                lemma_tag_no_case(s, k, word, word_and());
                lemma_factor(*r, s, k + 3);
                lemma_resume_bound(s, k + 3, tr);
                lemma_and_tail_at_unfold(s, k, *l);
            }
        },
        _ => {
            lemma_factor(e, s, p);
            lemma_term_at_unfold(s, p);
        },
    }
}

/// The written form of an expression, placed at `p` and not followed by `and`: the `or`
/// repetitions continue after it.
proof fn lemma_expression(e: ExprModel, s: Seq<char>, p: int)
    requires
        expression_shaped(e),
        numbers_read_back(e),
        placed(s, p, expr_text(e)),
        !has_tag_no_case(s, resume(s, p, expr_text(e)), word_and()),
    ensures
        expression_at(s, p) == shifted(
            or_tail_at(s, resume(s, p, expr_text(e)), e),
            resume(s, p, expr_text(e)) - p,
        ),
    decreases e, 3nat,
{
    let t = expr_text(e);
    lemma_resume_bound(s, p, t);
    lemma_shaped_levels(e);
    match e {
        ExprModel::Or(l, r) => {
            let tl = expr_text(*l);
            let tr = expr_text(*r);
            let word = seq!['O', 'R'];
            lemma_shaped_levels(*r);
            lemma_first_char(*r);
            assert(t =~= tl + (seq![' '] + word + seq![' '] + tr));
            lemma_binary_geometry(s, p, tl, word, tr);
            let k = resume(s, p, tl);
            assert(expression_at(s, p) == shifted(or_tail_at(s, k, *l), k - p)) by {
                lemma_has_tag_char(s, k, word, 0);
                lemma_no_tag_no_case(s, k, word_and());
                lemma_expression(*l, s, p);
            }
            assert(or_tail_at(s, k, *l) == shifted(
                or_tail_at(s, resume(s, p, t), e),
                resume(s, p, t) - k,
            )) by {
                lemma_tag_no_case(s, k, word, word_or());
                lemma_term(*r, s, k + 2);
                lemma_resume_bound(s, k + 2, tr);
                lemma_and_tail_at_unfold(s, resume(s, p, t), *r);
                lemma_or_tail_at_unfold(s, k, *l);
            }
        },
        _ => {
            lemma_term(e, s, p);
            lemma_and_tail_at_unfold(s, resume(s, p, t), e);
            lemma_expression_at_unfold(s, p);
        },
    }
}

/// An identifier read by the grammar is a name.
proof fn lemma_identifier_is_name(s: Seq<char>, p: int)
    requires
        identifier(s, p) is Done,
    ensures
        is_name(identifier(s, p)->0),
{
    let n = class_run(s, p, CharClass::NameChar);
    let name = s.subrange(p, p + n);
    assert(0 <= p < s.len());
    lemma_class_run_bound(s, p, CharClass::NameChar);
    assert forall|i: int| 0 <= i < name.len() implies in_class(#[trigger] name[i], CharClass::NameChar) by {
        lemma_class_run_members(s, p, CharClass::NameChar, i);
        assert(name[i] == s[p + i]);
    }
    lemma_class_run_members(s, p, CharClass::NameChar, 0);
}

/// A string literal read by the grammar holds a quotable text.
proof fn lemma_string_literal_quotable(s: Seq<char>, p: int)
    requires
        string_literal(s, p) is Done,
    ensures
        is_quotable(string_literal(s, p)->0),
{
    let n = class_run(s, p + 1, CharClass::NotQuote);
    let t = s.subrange(p + 1, p + 1 + n);
    assert forall|i: int| 0 <= i < t.len() implies #[trigger] t[i] != '"' by {
        lemma_class_run_members(s, p + 1, CharClass::NotQuote, i);
        assert(t[i] == s[p + 1 + i]);
    }
}

/// An argument read by the grammar has the shape of the grammar.
proof fn lemma_argument_at_shaped(s: Seq<char>, p: int)
    requires
        argument_at(s, p) is Done,
    ensures
        argument_shaped(argument_at(s, p)->0),
{
    let x = p + space_run(s, p);
    if match_attr_at(s, x) is Done {
        let (turn, t) = optional_turn(s, x + 5);
        lemma_identifier_is_name(s, x + 5 + t + 1);
    } else if bot_attr_at(s, x) is Done {
        let m = i64_literal(s, x + 4)->1;
        let (turn, t) = optional_turn(s, x + 5 + m);
        lemma_identifier_is_name(s, x + 5 + m + t + 1);
    } else if value_at(s, x) is Done {
        if string_literal(s, x) is Done {
            lemma_string_literal_quotable(s, x);
        }
    }
}

/// A condition read by the grammar has the shape of the grammar.
proof fn lemma_condition_at_shaped(s: Seq<char>, p: int)
    requires
        condition_at(s, p) is Done,
    ensures
        inner_shaped(condition_at(s, p)->0),
{
    let n1 = argument_at(s, p)->1;
    let n2 = condition_op_at(s, p + n1)->1;
    lemma_argument_at_shaped(s, p);
    lemma_argument_at_shaped(s, p + n1 + n2);
}

proof fn lemma_expression_at_shaped(s: Seq<char>, p: int)
    requires
        expression_at(s, p) is Done,
    ensures
        expression_shaped(expression_at(s, p)->0),
    decreases s.len() - p, 7nat,
{
    lemma_expression_at_unfold(s, p);
    let n = term_at(s, p)->1;
    lemma_term_at_shaped(s, p);
    lemma_shaped_levels(term_at(s, p)->0);
    lemma_or_tail_at_shaped(s, p + n, term_at(s, p)->0);
}

proof fn lemma_or_tail_at_shaped(s: Seq<char>, p: int, acc: ExprModel)
    requires
        expression_shaped(acc),
        or_tail_at(s, p, acc) is Done,
    ensures
        expression_shaped(or_tail_at(s, p, acc)->0),
    decreases s.len() - p, 6nat,
{
    lemma_or_tail_at_unfold(s, p, acc);
    if has_tag_no_case(s, p, word_or()) {
        if term_at(s, p + 2) is Done {
            let e = term_at(s, p + 2)->0;
            let n = term_at(s, p + 2)->1;
            lemma_term_at_shaped(s, p + 2);
            if p + 2 + n <= s.len() {
                lemma_or_tail_at_shaped(s, p + 2 + n, ExprModel::Or(Box::new(acc), Box::new(e)));
            }
        }
    }
}

proof fn lemma_term_at_shaped(s: Seq<char>, p: int)
    requires
        term_at(s, p) is Done,
    ensures
        term_shaped(term_at(s, p)->0),
    decreases s.len() - p, 5nat,
{
    lemma_term_at_unfold(s, p);
    let n = factor_at(s, p)->1;
    lemma_factor_at_shaped(s, p);
    lemma_shaped_levels(factor_at(s, p)->0);
    lemma_and_tail_at_shaped(s, p + n, factor_at(s, p)->0);
}

proof fn lemma_and_tail_at_shaped(s: Seq<char>, p: int, acc: ExprModel)
    requires
        term_shaped(acc),
        and_tail_at(s, p, acc) is Done,
    ensures
        term_shaped(and_tail_at(s, p, acc)->0),
    decreases s.len() - p, 4nat,
{
    lemma_and_tail_at_unfold(s, p, acc);
    if has_tag_no_case(s, p, word_and()) {
        if factor_at(s, p + 3) is Done {
            let e = factor_at(s, p + 3)->0;
            let n = factor_at(s, p + 3)->1;
            lemma_factor_at_shaped(s, p + 3);
            if p + 3 + n <= s.len() {
                lemma_and_tail_at_shaped(s, p + 3 + n, ExprModel::And(Box::new(acc), Box::new(e)));
            }
        }
    }
}

proof fn lemma_factor_at_shaped(s: Seq<char>, p: int)
    requires
        factor_at(s, p) is Done,
    ensures
        factor_shaped(factor_at(s, p)->0),
    decreases s.len() - p, 3nat,
{
    lemma_factor_at_unfold(s, p);
    let w = space_run(s, p);
    if has_tag_no_case(s, p + w, word_not()) {
        let q = p + w + 3;
        let w2 = space_run(s, q);
        if q + w2 <= s.len() {
            lemma_factor_inner_at_shaped(s, q + w2);
        }
    } else {
        lemma_factor_inner_at_shaped(s, p);
        lemma_shaped_levels(factor_inner_at(s, p)->0);
    }
}

proof fn lemma_factor_inner_at_shaped(s: Seq<char>, p: int)
    requires
        factor_inner_at(s, p) is Done,
    ensures
        inner_shaped(factor_inner_at(s, p)->0),
    decreases s.len() - p, 2nat,
{
    lemma_factor_inner_at_unfold(s, p);
    if condition_at(s, p) is Done {
        lemma_condition_at_shaped(s, p);
    } else {
        lemma_parens_at_shaped(s, p);
    }
}

proof fn lemma_parens_at_shaped(s: Seq<char>, p: int)
    requires
        parens_at(s, p) is Done,
    ensures
        inner_shaped(parens_at(s, p)->0),
    decreases s.len() - p, 1nat,
{
    lemma_parens_at_unfold(s, p);
    let q = p + space_run(s, p);
    lemma_expression_at_shaped(s, q + 1);
}

/// Every expression that a text reads as has the shape that the grammar builds.
pub proof fn law_parsed_expression_is_shaped(s: Seq<char>)
    requires
        parse_text(s) is Ok,
    ensures
        expression_shaped(parse_text(s)->Ok_0),
{
    lemma_expression_at_shaped(s, 0);
}

/// The written form of an expression of the grammar's shape, whose numbers read back as
/// their values, reads back as the same expression.
pub proof fn law_written_form_reads_back(e: ExprModel)
    requires
        expression_shaped(e),
        numbers_read_back(e),
    ensures
        parse_text(expr_text(e)) == Ok::<ExprModel, FilterErrorModel>(e),
{
    let t = expr_text(e);
    lemma_first_char(e);
    lemma_no_space(t, 0);
    lemma_no_space(t, t.len() as int);
    assert(t.subrange(0, t.len() as int) =~= t);
    assert(!has_tag_no_case(t, t.len() as int, word_and()));
    lemma_expression(e, t, 0);
    lemma_or_tail_at_unfold(t, t.len() as int, e);
}

/// What a text reads as, written out, reads back as the same expression, provided that its
/// numbers read back as their values.
pub proof fn law_display_reads_back(s: Seq<char>)
    requires
        parse_text(s) is Ok,
        numbers_read_back(parse_text(s)->Ok_0),
    ensures
        parse_text(expr_text(parse_text(s)->Ok_0)) == parse_text(s),
{
    law_parsed_expression_is_shaped(s);
    law_written_form_reads_back(parse_text(s)->Ok_0);
}

/// Writing out is idempotent: the written form of what a written form reads as is that
/// written form, provided that its numbers read back as their values.
pub proof fn law_display_is_canonical(s: Seq<char>)
    requires
        parse_text(s) is Ok,
        numbers_read_back(parse_text(s)->Ok_0),
    ensures
        parse_text(expr_text(parse_text(s)->Ok_0)) is Ok,
        expr_text(parse_text(expr_text(parse_text(s)->Ok_0))->Ok_0) == expr_text(
            parse_text(s)->Ok_0,
        ),
{
    law_display_reads_back(s);
}

/// A filter read from a text, written out, reads back as the same filter, provided that the
/// numbers of its expression read back as their values.
pub proof fn law_filter_text_reads_back(s: Seq<char>)
    requires
        filter_of_text(s) is Ok,
        filter_of_text(s)->Ok_0 matches Some(e) ==> numbers_read_back(e),
    ensures
        filter_of_text(filter_text(filter_of_text(s)->Ok_0)) == filter_of_text(s),
{
    match filter_of_text(s)->Ok_0 {
        Some(e) => {
            law_display_reads_back(s);
            law_parsed_expression_is_shaped(s);
            lemma_first_char(e);
        },
        None => {
            assert(filter_text(None) =~= Seq::<char>::empty());
        },
    }
}

} // verus!
