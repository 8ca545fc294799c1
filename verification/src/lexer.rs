use vstd::prelude::*;
use crate::text::string_from_chars;

verus! {

/// The outcome of a parsing step at some position of the input.
pub enum Step<V> {
    /// Success: the value read and the number of characters consumed.
    Done(V, nat),
    /// The input does not start with what was expected; an alternative may be tried.
    Error,
    /// The input is malformed beyond recovery; no alternative is tried.
    Failure,
}

/// An executable parsing step: the value read and the number of characters consumed,
/// or one of the two kinds of refusal.
pub enum Parsed<T> {
    Done(T, usize),
    Error,
    Failure,
}

impl<T: View> View for Parsed<T> {
    type V = Step<T::V>;

    open spec fn view(&self) -> Step<T::V> {
        match self {
            Parsed::Done(v, n) => Step::Done(v@, *n as nat),
            Parsed::Error => Step::Error,
            Parsed::Failure => Step::Failure,
        }
    }
}

/// Classes of characters that the lexer reads in runs.
#[derive(Clone, Copy, PartialEq, Eq, Structural)]
pub enum CharClass {
    /// Space, tab, carriage return and line feed.
    Space,
    /// The ASCII digits.
    Digit,
    /// ASCII letters, ASCII digits and `_`.
    NameChar,
    /// Every character but `"`.
    NotQuote,
}

/// An ASCII letter.
pub open spec fn is_ascii_letter(c: char) -> bool {
    ('a' <= c && c <= 'z') || ('A' <= c && c <= 'Z')
}

/// An ASCII decimal digit.
pub open spec fn is_ascii_digit(c: char) -> bool {
    '0' <= c && c <= '9'
}

/// Whether `c` belongs to `class`.
pub open spec fn in_class(c: char, class: CharClass) -> bool {
    match class {
        CharClass::Space => c == ' ' || c == '\t' || c == '\r' || c == '\n',
        CharClass::Digit => is_ascii_digit(c),
        CharClass::NameChar => is_ascii_letter(c) || is_ascii_digit(c) || c == '_',
        CharClass::NotQuote => c != '"',
    }
}

/// The length of the longest run of characters of `class` starting at `pos`.
pub open spec fn class_run(s: Seq<char>, pos: int, class: CharClass) -> nat
    decreases s.len() - pos,
{
    if 0 <= pos < s.len() && in_class(s[pos], class) {
        1 + class_run(s, pos + 1, class)
    } else {
        0
    }
}

/// The length of the run of spaces at `pos`.
pub open spec fn space_run(s: Seq<char>, pos: int) -> nat {
    class_run(s, pos, CharClass::Space)
}

/// The character `c` with ASCII upper-case letters mapped to lower case.
pub open spec fn ascii_lower(c: char) -> char {
    if 'A' <= c && c <= 'Z' {
        ((c as u32) + 32) as char
    } else {
        c
    }
}

/// `s` holds the characters of `t` at `pos`.
pub open spec fn has_tag(s: Seq<char>, pos: int, t: Seq<char>) -> bool {
    0 <= pos && pos + t.len() <= s.len() && s.subrange(pos, pos + t.len()) == t
}

/// `s` holds the characters of the lower-case word `t` at `pos`, each in either case.
pub open spec fn has_tag_no_case(s: Seq<char>, pos: int, t: Seq<char>) -> bool {
    &&& 0 <= pos
    &&& pos + t.len() <= s.len()
    &&& forall|k: int| 0 <= k < t.len() ==> #[trigger] ascii_lower(s[pos + k]) == t[k]
}

/// The value of the `n` decimal digits at `pos`.
pub open spec fn digits_value(s: Seq<char>, pos: int, n: nat) -> nat
    decreases n,
{
    if n == 0 {
        0
    } else {
        digits_value(s, pos, (n - 1) as nat) * 10 + ((s[pos + n - 1] as int) - 48) as nat
    }
}

/// An unsigned decimal literal at `pos` that does not exceed `max`: the digits and their value.
pub open spec fn unsigned_literal(s: Seq<char>, pos: int, max: nat) -> Step<nat> {
    let n = class_run(s, pos, CharClass::Digit);
    if n == 0 || digits_value(s, pos, n) > max {
        Step::Error
    } else {
        Step::Done(digits_value(s, pos, n), n)
    }
}

/// A `u16` in decimal at `pos`.
pub open spec fn u16_literal(s: Seq<char>, pos: int) -> Step<u16> {
    match unsigned_literal(s, pos, 0xffff) {
        Step::Done(v, n) => Step::Done(v as u16, n),
        _ => Step::Error,
    }
}

/// An `i64` in decimal at `pos`, with an optional `+` or `-` sign.
pub open spec fn i64_literal(s: Seq<char>, pos: int) -> Step<i64> {
    if 0 <= pos < s.len() && s[pos] == '-' {
        match unsigned_literal(s, pos + 1, 0x8000_0000_0000_0000) {
            Step::Done(v, n) => Step::Done((-v) as i64, n + 1),
            _ => Step::Error,
        }
    } else if 0 <= pos < s.len() && s[pos] == '+' {
        match unsigned_literal(s, pos + 1, 0x7fff_ffff_ffff_ffff) {
            Step::Done(v, n) => Step::Done(v as i64, n + 1),
            _ => Step::Error,
        }
    } else {
        match unsigned_literal(s, pos, 0x7fff_ffff_ffff_ffff) {
            Step::Done(v, n) => Step::Done(v as i64, n),
            _ => Step::Error,
        }
    }
}

/// An identifier at `pos`: an ASCII letter or `_`, then ASCII letters, digits and `_`.
pub open spec fn identifier(s: Seq<char>, pos: int) -> Step<Seq<char>> {
    let n = class_run(s, pos, CharClass::NameChar);
    if n == 0 || is_ascii_digit(s[pos]) {
        Step::Error
    } else {
        Step::Done(s.subrange(pos, pos + n), n)
    }
}

/// A string literal at `pos`: `"`, at least one other character, `"`. The value is the
/// text between the quotes.
pub open spec fn string_literal(s: Seq<char>, pos: int) -> Step<Seq<char>> {
    let n = class_run(s, pos + 1, CharClass::NotQuote);
    if 0 <= pos && pos + n + 1 < s.len() && s[pos] == '"' && n > 0 && s[pos + n + 1] == '"' {
        Step::Done(s.subrange(pos + 1, pos + 1 + n), n + 2)
    } else {
        Step::Error
    }
}

/// Whether `c` belongs to `class`.
pub fn char_in_class(c: char, class: CharClass) -> (res: bool)
    ensures
        res == in_class(c, class),
{
    match class {
        CharClass::Space => c == ' ' || c == '\t' || c == '\r' || c == '\n',
        CharClass::Digit => '0' <= c && c <= '9',
        CharClass::NameChar => ('a' <= c && c <= 'z') || ('A' <= c && c <= 'Z') || ('0' <= c
            && c <= '9') || c == '_',
        CharClass::NotQuote => c != '"',
    }
}

/// A run does not pass the end of the text.
pub proof fn lemma_class_run_bound(s: Seq<char>, pos: int, class: CharClass)
    requires
        0 <= pos <= s.len(),
    ensures
        pos + class_run(s, pos, class) <= s.len(),
    decreases s.len() - pos,
{
    if pos < s.len() && in_class(s[pos], class) {
        lemma_class_run_bound(s, pos + 1, class);
    }
}

/// The length of the run of characters of `class` at `pos`.
pub fn run_length(s: &[char], pos: usize, class: CharClass) -> (n: usize)
    requires
        pos <= s.len(),
    ensures
        n == class_run(s@, pos as int, class),
        pos + n <= s.len(),
{
    let mut i = pos;
    while i < s.len() && char_in_class(s[i], class)
        invariant
            pos <= i <= s.len(),
            class_run(s@, pos as int, class) == (i - pos) + class_run(s@, i as int, class),
        decreases s.len() - i,
    {
        i = i + 1;
    }
    i - pos
}

/// `c` with an ASCII upper-case letter mapped to lower case.
pub fn lower_ascii(c: char) -> (res: char)
    ensures
        res == ascii_lower(c),
{
    if 'A' <= c && c <= 'Z' {
        let b: u8 = c as u8;
        (b + 32) as char
    } else {
        c
    }
}

/// Whether `s` holds `t` at `pos`.
pub fn tag_at(s: &[char], pos: usize, t: &[char]) -> (res: bool)
    requires
        pos <= s.len(),
    ensures
        res == has_tag(s@, pos as int, t@),
{
    if t.len() > s.len() - pos {
        return false;
    }
    let mut k: usize = 0;
    while k < t.len()
        invariant
            k <= t.len(),
            pos + t.len() <= s.len(),
            forall|j: int| 0 <= j < k ==> s@[pos + j] == t@[j],
        decreases t.len() - k,
    {
        if s[pos + k] != t[k] {
            assert(s@.subrange(pos as int, pos + t.len())[k as int] != t@[k as int]);
            return false;
        }
        k = k + 1;
    }
    assert(s@.subrange(pos as int, pos + t.len()) =~= t@);
    true
}

/// Whether `s` holds the lower-case word `t` at `pos`, in any case.
pub fn tag_no_case_at(s: &[char], pos: usize, t: &[char]) -> (res: bool)
    requires
        pos <= s.len(),
    ensures
        res == has_tag_no_case(s@, pos as int, t@),
{
    if t.len() > s.len() - pos {
        return false;
    }
    let mut k: usize = 0;
    while k < t.len()
        invariant
            k <= t.len(),
            pos + t.len() <= s.len(),
            forall|j: int| 0 <= j < k ==> #[trigger] ascii_lower(s@[pos + j]) == t@[j],
        decreases t.len() - k,
    {
        if lower_ascii(s[pos + k]) != t[k] {
            assert(ascii_lower(s@[pos + k as int]) != t@[k as int]);
            return false;
        }
        k = k + 1;
    }
    true
}

/// The characters of `s` from `from` to `to`, as a `String`.
pub fn string_between(s: &[char], from: usize, to: usize) -> (res: String)
    requires
        from <= to <= s.len(),
    ensures
        res@ == s@.subrange(from as int, to as int),
{
    let mut out: Vec<char> = Vec::new();
    let mut i = from;
    while i < to
        invariant
            from <= i <= to <= s.len(),
            out@ == s@.subrange(from as int, i as int),
        decreases to - i,
    {
        out.push(s[i]);
        i = i + 1;
        assert(out@ =~= s@.subrange(from as int, i as int));
    }
    string_from_chars(&out)
}

/// Every character of a run belongs to its class.
pub proof fn lemma_class_run_members(s: Seq<char>, pos: int, class: CharClass, j: int)
    requires
        0 <= j < class_run(s, pos, class),
    ensures
        0 <= pos + j < s.len(),
        in_class(s[pos + j], class),
    decreases j,
{
    if j > 0 {
        lemma_class_run_members(s, pos + 1, class, j - 1);
    }
}

/// The run ends at the end of the input or at a character outside the class.
pub proof fn lemma_class_run_end(s: Seq<char>, pos: int, class: CharClass)
    requires
        0 <= pos <= s.len(),
    ensures
        pos + class_run(s, pos, class) == s.len() || !in_class(
            s[pos + class_run(s, pos, class)],
            class,
        ),
    decreases s.len() - pos,
{
    if pos < s.len() && in_class(s[pos], class) {
        lemma_class_run_end(s, pos + 1, class);
    }
}

/// Reading more digits never lowers the value.
pub proof fn lemma_digits_value_grows(s: Seq<char>, pos: int, m: nat, n: nat)
    requires
        m <= n <= class_run(s, pos, CharClass::Digit),
    ensures
        digits_value(s, pos, m) <= digits_value(s, pos, n),
    decreases n - m,
{
    if m < n {
        lemma_digits_value_grows(s, pos, m, (n - 1) as nat);
        lemma_class_run_members(s, pos, CharClass::Digit, n - 1);
    }
}

/// An unsigned decimal literal of at most `max` at `pos`.
pub fn read_unsigned(s: &[char], pos: usize, max: u64) -> (res: Option<(u64, usize)>)
    requires
        pos <= s.len(),
        max <= 0x8000_0000_0000_0000u64,
    ensures
        match res {
            Some((v, n)) => unsigned_literal(s@, pos as int, max as nat) == Step::Done(
                v as nat,
                n as nat,
            ) && pos + n <= s.len(),
            None => unsigned_literal(s@, pos as int, max as nat) == Step::<nat>::Error,
        },
{
    let n = run_length(s, pos, CharClass::Digit);
    if n == 0 {
        return None;
    }
    let mut v: u128 = 0;
    let mut i: usize = 0;
    while i < n
        invariant
            i <= n,
            pos + n <= s.len(),
            n == class_run(s@, pos as int, CharClass::Digit),
            v == digits_value(s@, pos as int, i as nat),
            v <= max,
            max <= 0x8000_0000_0000_0000u64,
        decreases n - i,
    {
        proof {
            lemma_class_run_members(s@, pos as int, CharClass::Digit, i as int);
        }
        let d: u32 = (s[pos + i] as u32) - 48;
        v = v * 10 + (d as u128);
        i = i + 1;
        if v > max as u128 {
            proof {
                lemma_digits_value_grows(s@, pos as int, i as nat, n as nat);
            }
            return None;
        }
    }
    Some((v as u64, n))
}

/// A `u16` in decimal at `pos`.
pub fn read_u16(s: &[char], pos: usize) -> (res: Parsed<u16>)
    requires
        pos <= s.len(),
    ensures
        res@ == u16_literal(s@, pos as int),
        res matches Parsed::Done(_, n) ==> pos + n <= s.len(),
{
    match read_unsigned(s, pos, 0xffff) {
        Some((v, n)) => Parsed::Done(v as u16, n),
        None => Parsed::Error,
    }
}

/// An `i64` in decimal at `pos`, with an optional sign.
pub fn read_i64(s: &[char], pos: usize) -> (res: Parsed<i64>)
    requires
        pos <= s.len(),
    ensures
        res@ == i64_literal(s@, pos as int),
        res matches Parsed::Done(_, n) ==> pos + n <= s.len(),
{
    if pos < s.len() && s[pos] == '-' {
        match read_unsigned(s, pos + 1, 0x8000_0000_0000_0000) {
            Some((v, n)) => Parsed::Done((0i128 - (v as i128)) as i64, n + 1),
            None => Parsed::Error,
        }
    } else if pos < s.len() && s[pos] == '+' {
        match read_unsigned(s, pos + 1, 0x7fff_ffff_ffff_ffff) {
            Some((v, n)) => Parsed::Done(v as i64, n + 1),
            None => Parsed::Error,
        }
    } else {
        match read_unsigned(s, pos, 0x7fff_ffff_ffff_ffff) {
            Some((v, n)) => Parsed::Done(v as i64, n),
            None => Parsed::Error,
        }
    }
}

/// An identifier at `pos`.
pub fn read_identifier(s: &[char], pos: usize) -> (res: Parsed<String>)
    requires
        pos <= s.len(),
    ensures
        res@ == identifier(s@, pos as int),
        res matches Parsed::Done(_, n) ==> pos + n <= s.len(),
{
    let n = run_length(s, pos, CharClass::NameChar);
    if n == 0 || ('0' <= s[pos] && s[pos] <= '9') {
        Parsed::Error
    } else {
        Parsed::Done(string_between(s, pos, pos + n), n)
    }
}

/// A string literal at `pos`.
pub fn read_string_literal(s: &[char], pos: usize) -> (res: Parsed<String>)
    requires
        pos <= s.len(),
    ensures
        res@ == string_literal(s@, pos as int),
        res matches Parsed::Done(_, n) ==> pos + n <= s.len(),
{
    if pos >= s.len() || s[pos] != '"' {
        return Parsed::Error;
    }
    let n = run_length(s, pos + 1, CharClass::NotQuote);
    if n > 0 && pos + n + 1 < s.len() && s[pos + n + 1] == '"' {
        Parsed::Done(string_between(s, pos + 1, pos + 1 + n), n + 2)
    } else {
        Parsed::Error
    }
}

} // verus!
