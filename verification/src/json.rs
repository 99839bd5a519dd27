//! Reading JSON.
//!
//! Cargo reports what it built as one JSON value per line. Reading those is all
//! this parser is for, so it takes one whole value and offers one question: what
//! text stands at the end of a path of keys. The grammar is RFC 8259's, taken
//! strictly.

use vstd::prelude::*;

use crate::text;
use crate::text::{chars_of, same_str, slice, string_of};

verus! {

/// `char::from_u32`: the character with code point `i`, which is one exactly
/// where `i` is a Unicode scalar value.
pub assume_specification[ char::from_u32 ](i: u32) -> (c: Option<char>)
    ensures
        match c {
            Some(c) => c == i as char && (i < 0xd800 || 0xdfff < i <= 0x10ffff),
            None => 0xd800 <= i <= 0xdfff || 0x10ffff < i,
        },
;

/// A JSON value.
#[derive(Debug)]
pub enum Value {
    /// `null`.
    Null,
    /// `true` or `false`.
    Bool(bool),
    /// A number, as it was written.
    Number(String),
    /// A string, with its escapes resolved.
    Text(String),
    /// An array.
    Array(Vec<Value>),
    /// An object, its members in the order they were written.
    Object(Vec<Member>),
}

/// One member of an object.
#[derive(Debug)]
pub struct Member {
    /// The key.
    pub name: String,
    /// What it is set to.
    pub value: Value,
}

/// What a [`Value`] stands for.
pub enum Json {
    /// `null`.
    Null,
    /// `true` or `false`.
    Bool(bool),
    /// A number, as it was written.
    Number(Seq<char>),
    /// A string, with its escapes resolved.
    Text(Seq<char>),
    /// An array.
    Array(Seq<Json>),
    /// An object, its members in the order they were written.
    Object(Seq<(Seq<char>, Json)>),
}

/// What `value` stands for.
pub open spec fn json(value: Value) -> Json
    decreases value,
{
    match value {
        Value::Null => Json::Null,
        Value::Bool(yes) => Json::Bool(yes),
        Value::Number(number) => Json::Number(number@),
        Value::Text(text) => Json::Text(text@),
        Value::Array(items) => Json::Array(jsons(items@)),
        Value::Object(members) => Json::Object(fields(members@)),
    }
}

/// What each of `items` stands for.
pub open spec fn jsons(items: Seq<Value>) -> Seq<Json>
    decreases items,
{
    if items.len() == 0 {
        seq![]
    } else {
        jsons(items.drop_last()).push(json(items.last()))
    }
}

/// What each of `members` stands for.
pub open spec fn fields(members: Seq<Member>) -> Seq<(Seq<char>, Json)>
    decreases members,
{
    if members.len() == 0 {
        seq![]
    } else {
        fields(members.drop_last()).push((members.last().name@, json(members.last().value)))
    }
}

impl View for Value {
    type V = Json;

    open spec fn view(&self) -> Json {
        json(*self)
    }
}

// ---------------------------------------------------------------------------
// The grammar.
// ---------------------------------------------------------------------------

/// The whitespace JSON allows between tokens.
pub open spec fn is_filler(c: char) -> bool {
    c == ' ' || c == '\t' || c == '\n' || c == '\r'
}

/// Where the whitespace from `at` on ends.
pub open spec fn filler_end(text: Seq<char>, at: int) -> int
    decreases text.len() - at,
{
    if 0 <= at < text.len() && is_filler(text[at]) {
        filler_end(text, at + 1)
    } else {
        at
    }
}

/// A decimal digit.
pub open spec fn is_digit(c: char) -> bool {
    '0' <= c && c <= '9'
}

/// Where the digits from `at` on end.
pub open spec fn digits_end(text: Seq<char>, at: int) -> int
    decreases text.len() - at,
{
    if 0 <= at < text.len() && is_digit(text[at]) {
        digits_end(text, at + 1)
    } else {
        at
    }
}

/// Where the integer part of a number at `at` ends: a lone `0`, or digits that
/// do not begin with one.
pub open spec fn integer_end(text: Seq<char>, at: int) -> Option<int> {
    if !(0 <= at < text.len()) || !is_digit(text[at]) {
        None
    } else if text[at] == '0' {
        Some(at + 1)
    } else {
        Some(digits_end(text, at))
    }
}

/// Where the fraction at `at`, if there is one, ends.
pub open spec fn fraction_end(text: Seq<char>, at: int) -> Option<int> {
    if 0 <= at < text.len() && text[at] == '.' {
        if digits_end(text, at + 1) == at + 1 {
            None
        } else {
            Some(digits_end(text, at + 1))
        }
    } else {
        Some(at)
    }
}

/// Where the exponent at `at`, if there is one, ends.
pub open spec fn exponent_end(text: Seq<char>, at: int) -> Option<int> {
    if 0 <= at < text.len() && (text[at] == 'e' || text[at] == 'E') {
        let digits = if at + 1 < text.len() && (text[at + 1] == '+' || text[at + 1] == '-') {
            at + 2
        } else {
            at + 1
        };
        if digits_end(text, digits) == digits {
            None
        } else {
            Some(digits_end(text, digits))
        }
    } else {
        Some(at)
    }
}

/// Where the number at `at` ends.
pub open spec fn number_end(text: Seq<char>, at: int) -> Option<int> {
    let start = if 0 <= at < text.len() && text[at] == '-' {
        at + 1
    } else {
        at
    };
    match integer_end(text, start) {
        Some(end) => match fraction_end(text, end) {
            Some(end) => exponent_end(text, end),
            None => None,
        },
        None => None,
    }
}

/// What a hexadecimal digit counts.
pub open spec fn hex_digit(c: char) -> Option<nat> {
    if '0' <= c && c <= '9' {
        Some((c as u32 - '0' as u32) as nat)
    } else if 'a' <= c && c <= 'f' {
        Some((c as u32 - 'a' as u32 + 10) as nat)
    } else if 'A' <= c && c <= 'F' {
        Some((c as u32 - 'A' as u32 + 10) as nat)
    } else {
        None
    }
}

/// The four hexadecimal digits at `at`, as a number.
pub open spec fn hex_at(text: Seq<char>, at: int) -> Option<nat> {
    if 0 <= at && at + 4 <= text.len() {
        match (
            hex_digit(text[at]),
            hex_digit(text[at + 1]),
            hex_digit(text[at + 2]),
            hex_digit(text[at + 3]),
        ) {
            (Some(a), Some(b), Some(c), Some(d)) => Some(4096 * a + 256 * b + 16 * c + d),
            _ => None,
        }
    } else {
        None
    }
}

/// The first half of a character written as two `\u` escapes.
pub open spec fn is_high_half(n: nat) -> bool {
    0xd800 <= n <= 0xdbff
}

/// The second half of a character written as two `\u` escapes.
pub open spec fn is_low_half(n: nat) -> bool {
    0xdc00 <= n <= 0xdfff
}

/// The character a `\u` escape stands for whose digits begin at `at`, and where
/// it ends. A character outside the basic plane takes two escapes, and neither
/// half stands alone.
pub open spec fn unicode_at(text: Seq<char>, at: int) -> Option<(char, int)> {
    match hex_at(text, at) {
        None => None,
        Some(n) => if is_high_half(n) {
            if at + 6 <= text.len() && text[at + 4] == '\\' && text[at + 5] == 'u' {
                match hex_at(text, at + 6) {
                    Some(m) => if is_low_half(m) {
                        Some((
                            (0x10000 + 1024 * (n - 0xd800) + (m - 0xdc00)) as char,
                            at + 10,
                        ))
                    } else {
                        None
                    },
                    None => None,
                }
            } else {
                None
            }
        } else if is_low_half(n) {
            None
        } else {
            Some((n as char, at + 4))
        },
    }
}

/// The character an escape stands for whose `\` is right before `at`, and where
/// it ends.
pub open spec fn escape_at(text: Seq<char>, at: int) -> Option<(char, int)> {
    if !(0 <= at < text.len()) {
        None
    } else if text[at] == '"' || text[at] == '\\' || text[at] == '/' {
        Some((text[at], at + 1))
    } else if text[at] == 'b' {
        Some(('\x08', at + 1))
    } else if text[at] == 'f' {
        Some(('\x0c', at + 1))
    } else if text[at] == 'n' {
        Some(('\n', at + 1))
    } else if text[at] == 'r' {
        Some(('\r', at + 1))
    } else if text[at] == 't' {
        Some(('\t', at + 1))
    } else if text[at] == 'u' {
        unicode_at(text, at + 1)
    } else {
        None
    }
}

/// The rest of a string from `at` on, escapes resolved, and where it ends, which
/// is right behind the closing quote.
pub open spec fn string_at(text: Seq<char>, at: int) -> Option<(Seq<char>, int)>
    decreases text.len() - at,
{
    if !(0 <= at < text.len()) {
        None
    } else if text[at] == '"' {
        Some((seq![], at + 1))
    } else if text[at] == '\\' {
        match escape_at(text, at + 1) {
            Some((c, next)) => match string_at(text, next) {
                Some((rest, end)) => Some((seq![c] + rest, end)),
                None => None,
            },
            None => None,
        }
    } else if (text[at] as u32) < 0x20 {
        None
    } else {
        match string_at(text, at + 1) {
            Some((rest, end)) => Some((seq![text[at]] + rest, end)),
            None => None,
        }
    }
}

/// `value`, if it is spelled out at `at`.
pub open spec fn literal_at(text: Seq<char>, at: int, name: Seq<char>, value: Json) -> Option<
    (Json, int),
> {
    if text::occurs_at(text, name, at) {
        Some((value, at + name.len()))
    } else {
        None
    }
}

/// The value at `at`, and where it ends.
pub open spec fn value_at(text: Seq<char>, at: int) -> Option<(Json, int)>
    decreases text.len() - at, 0nat,
{
    if !(0 <= at < text.len()) {
        None
    } else if text[at] == '"' {
        match string_at(text, at + 1) {
            Some((string, end)) => Some((Json::Text(string), end)),
            None => None,
        }
    } else if text[at] == '[' {
        proof {
            lemma_filler_end(text, at + 1);
        }
        let next = filler_end(text, at + 1);
        if next < text.len() && text[next] == ']' {
            Some((Json::Array(seq![]), next + 1))
        } else {
            match items_at(text, next) {
                Some((items, end)) => Some((Json::Array(items), end)),
                None => None,
            }
        }
    } else if text[at] == '{' {
        proof {
            lemma_filler_end(text, at + 1);
        }
        let next = filler_end(text, at + 1);
        if next < text.len() && text[next] == '}' {
            Some((Json::Object(seq![]), next + 1))
        } else {
            match members_at(text, next) {
                Some((members, end)) => Some((Json::Object(members), end)),
                None => None,
            }
        }
    } else if text[at] == 'n' {
        literal_at(text, at, "null"@, Json::Null)
    } else if text[at] == 't' {
        literal_at(text, at, "true"@, Json::Bool(true))
    } else if text[at] == 'f' {
        literal_at(text, at, "false"@, Json::Bool(false))
    } else {
        match number_end(text, at) {
            Some(end) => Some((Json::Number(text.subrange(at, end)), end)),
            None => None,
        }
    }
}

/// The items of an array from the one at `at` on, and where the array ends.
pub open spec fn items_at(text: Seq<char>, at: int) -> Option<(Seq<Json>, int)>
    decreases text.len() - at, 1nat,
{
    match value_at(text, at) {
        Some((item, end)) => {
            let next = filler_end(text, end);
            if !(at < next < text.len()) {
                None
            } else if text[next] == ']' {
                Some((seq![item], next + 1))
            } else if text[next] == ',' {
                proof {
                    lemma_filler_end(text, next + 1);
                }
                match items_at(text, filler_end(text, next + 1)) {
                    Some((rest, end)) => Some((seq![item] + rest, end)),
                    None => None,
                }
            } else {
                None
            }
        },
        None => None,
    }
}

/// Where the value of a member whose key ends at `at` begins: behind its colon.
pub open spec fn colon_end(text: Seq<char>, at: int) -> Option<int> {
    let colon = filler_end(text, at);
    if 0 <= colon < text.len() && text[colon] == ':' {
        Some(filler_end(text, colon + 1))
    } else {
        None
    }
}

/// The members of an object from the one at `at` on, and where the object ends.
pub open spec fn members_at(text: Seq<char>, at: int) -> Option<(Seq<(Seq<char>, Json)>, int)>
    decreases text.len() - at, 1nat,
{
    if !(0 <= at < text.len()) || text[at] != '"' {
        None
    } else {
        match string_at(text, at + 1) {
            Some((name, end)) => match colon_end(text, end) {
                Some(start) => if !(at < start <= text.len()) {
                    None
                } else {
                    match value_at(text, start) {
                        Some((value, end)) => {
                            let next = filler_end(text, end);
                            if !(at < next < text.len()) {
                                None
                            } else if text[next] == '}' {
                                Some((seq![(name, value)], next + 1))
                            } else if text[next] == ',' {
                                proof {
                                    lemma_filler_end(text, next + 1);
                                }
                                match members_at(text, filler_end(text, next + 1)) {
                                    Some((rest, end)) => Some((seq![(name, value)] + rest, end)),
                                    None => None,
                                }
                            } else {
                                None
                            }
                        },
                        None => None,
                    }
                },
                None => None,
            },
            None => None,
        }
    }
}

/// The value that `text` spells, if it spells one.
pub open spec fn parsed(text: Seq<char>) -> Option<Json> {
    match value_at(text, filler_end(text, 0)) {
        Some((value, end)) => if filler_end(text, end) == text.len() {
            Some(value)
        } else {
            None
        },
        None => None,
    }
}

// ---------------------------------------------------------------------------
// Where things end.
// ---------------------------------------------------------------------------

/// Whitespace ends no earlier than it begins, and inside the text.
pub proof fn lemma_filler_end(text: Seq<char>, at: int)
    ensures
        at <= filler_end(text, at),
        0 <= at <= text.len() ==> filler_end(text, at) <= text.len(),
    decreases text.len() - at,
{
    if 0 <= at < text.len() && is_filler(text[at]) {
        lemma_filler_end(text, at + 1);
    }
}

pub(crate) proof fn lemma_digits_end(text: Seq<char>, at: int)
    ensures
        at <= digits_end(text, at),
        0 <= at <= text.len() ==> digits_end(text, at) <= text.len(),
        0 <= at < text.len() && is_digit(text[at]) ==> at < digits_end(text, at),
    decreases text.len() - at,
{
    if 0 <= at < text.len() && is_digit(text[at]) {
        lemma_digits_end(text, at + 1);
    }
}

pub(crate) proof fn lemma_string_end(text: Seq<char>, at: int)
    ensures
        string_at(text, at) is Some ==> at < (string_at(text, at)->0).1 <= text.len(),
    decreases text.len() - at,
{
    if 0 <= at < text.len() && text[at] != '"' {
        if text[at] == '\\' {
            if let Some((_, next)) = escape_at(text, at + 1) {
                lemma_string_end(text, next);
            }
        } else {
            lemma_string_end(text, at + 1);
        }
    }
}

pub(crate) proof fn lemma_value_end(text: Seq<char>, at: int)
    ensures
        value_at(text, at) is Some ==> at < (value_at(text, at)->0).1 <= text.len(),
    decreases text.len() - at, 0nat,
{
    reveal_strlit("null");
    reveal_strlit("true");
    reveal_strlit("false");
    if 0 <= at < text.len() {
        lemma_string_end(text, at + 1);
        lemma_filler_end(text, at + 1);
        let next = filler_end(text, at + 1);
        if text[at] == '[' {
            lemma_items_end(text, next);
        } else if text[at] == '{' {
            lemma_members_end(text, next);
        } else {
            lemma_number_end(text, at);
        }
    }
}

proof fn lemma_items_end(text: Seq<char>, at: int)
    ensures
        items_at(text, at) is Some ==> at < (items_at(text, at)->0).1 <= text.len(),
    decreases text.len() - at, 1nat,
{
    lemma_value_end(text, at);
    if let Some((_, end)) = value_at(text, at) {
        let next = filler_end(text, end);
        lemma_filler_end(text, end);
        lemma_filler_end(text, next + 1);
        if next < text.len() {
            lemma_items_end(text, filler_end(text, next + 1));
        }
    }
}

proof fn lemma_members_end(text: Seq<char>, at: int)
    ensures
        members_at(text, at) is Some ==> at < (members_at(text, at)->0).1 <= text.len(),
    decreases text.len() - at, 1nat,
{
    lemma_string_end(text, at + 1);
    if members_at(text, at) is Some {
        let end = (string_at(text, at + 1)->0).1;
        let colon = filler_end(text, end);
        lemma_filler_end(text, end);
        lemma_filler_end(text, colon + 1);
        let start = filler_end(text, colon + 1);
        lemma_value_end(text, start);
        let end = (value_at(text, start)->0).1;
        let next = filler_end(text, end);
        lemma_filler_end(text, end);
        lemma_filler_end(text, next + 1);
        lemma_members_end(text, filler_end(text, next + 1));
    }
}

proof fn lemma_number_end(text: Seq<char>, at: int)
    ensures
        number_end(text, at) is Some ==> at < number_end(text, at)->0 <= text.len(),
{
    if number_end(text, at) is Some {
        let start = if 0 <= at < text.len() && text[at] == '-' {
            at + 1
        } else {
            at
        };
        lemma_digits_end(text, start);
        let end = integer_end(text, start)->0;
        lemma_digits_end(text, end + 1);
        let end = fraction_end(text, end)->0;
        lemma_digits_end(text, end + 1);
        lemma_digits_end(text, end + 2);
    }
}

// ---------------------------------------------------------------------------
// The parser.
// ---------------------------------------------------------------------------

/// Where the whitespace from `at` on ends.
fn skip_filler(chars: &Vec<char>, at: usize) -> (end: usize)
    requires
        at <= chars@.len(),
    ensures
        end == filler_end(chars@, at as int),
        at <= end <= chars.len(),
{
    let mut end: usize = at;
    while end < chars.len() && (chars[end] == ' ' || chars[end] == '\t' || chars[end] == '\n'
        || chars[end] == '\r')
        invariant
            at <= end <= chars.len(),
            filler_end(chars@, at as int) == filler_end(chars@, end as int),
        decreases chars.len() - end,
    {
        end += 1;
    }
    end
}

/// Whether `c` is a decimal digit.
fn digit(c: char) -> (yes: bool)
    ensures
        yes == is_digit(c),
{
    '0' <= c && c <= '9'
}

/// Where the digits from `at` on end.
fn skip_digits(chars: &Vec<char>, at: usize) -> (end: usize)
    requires
        at <= chars@.len(),
    ensures
        end == digits_end(chars@, at as int),
        at <= end <= chars.len(),
{
    let mut end: usize = at;
    while end < chars.len() && digit(chars[end])
        invariant
            at <= end <= chars.len(),
            digits_end(chars@, at as int) == digits_end(chars@, end as int),
        decreases chars.len() - end,
    {
        end += 1;
    }
    end
}

/// An optional position as a number.
pub open spec fn place(at: Option<usize>) -> Option<int> {
    match at {
        Some(at) => Some(at as int),
        None => None,
    }
}

/// Where the number at `at` ends.
fn number(chars: &Vec<char>, at: usize) -> (end: Option<usize>)
    requires
        at < chars.len(),
    ensures
        place(end) == number_end(chars@, at as int),
{
    let mut end: usize = if chars[at] == '-' {
        at + 1
    } else {
        at
    };
    if end >= chars.len() || !digit(chars[end]) {
        return None;
    }
    if chars[end] == '0' {
        end += 1;
    } else {
        end = skip_digits(chars, end);
    }
    if end < chars.len() && chars[end] == '.' {
        let digits = skip_digits(chars, end + 1);
        if digits == end + 1 {
            return None;
        }
        end = digits;
    }
    if end < chars.len() && (chars[end] == 'e' || chars[end] == 'E') {
        let start: usize = if end + 1 < chars.len() && (chars[end + 1] == '+' || chars[end + 1]
            == '-') {
            end + 2
        } else {
            end + 1
        };
        let digits = skip_digits(chars, start);
        if digits == start {
            return None;
        }
        end = digits;
    }
    Some(end)
}

/// What a hexadecimal digit counts.
fn hex_value(c: char) -> (n: Option<u32>)
    ensures
        match n {
            Some(n) => hex_digit(c) == Some(n as nat) && n < 16,
            None => hex_digit(c) is None,
        },
{
    if '0' <= c && c <= '9' {
        Some(c as u32 - '0' as u32)
    } else if 'a' <= c && c <= 'f' {
        Some(c as u32 - 'a' as u32 + 10)
    } else if 'A' <= c && c <= 'F' {
        Some(c as u32 - 'A' as u32 + 10)
    } else {
        None
    }
}

/// The four hexadecimal digits at `at`, as a number.
fn hex(chars: &Vec<char>, at: usize) -> (n: Option<u32>)
    requires
        at <= chars@.len(),
    ensures
        match n {
            Some(n) => hex_at(chars@, at as int) == Some(n as nat) && n <= 0xffff && at + 4
                <= chars.len(),
            None => hex_at(chars@, at as int) is None,
        },
{
    if chars.len() - at < 4 {
        return None;
    }
    match (
        hex_value(chars[at]),
        hex_value(chars[at + 1]),
        hex_value(chars[at + 2]),
        hex_value(chars[at + 3]),
    ) {
        (Some(a), Some(b), Some(c), Some(d)) => Some(4096 * a + 256 * b + 16 * c + d),
        _ => None,
    }
}

/// The character a `\u` escape stands for whose digits begin at `at`, and where
/// it ends.
fn unicode(chars: &Vec<char>, at: usize) -> (found: Option<(char, usize)>)
    requires
        at <= chars@.len(),
    ensures
        match found {
            Some((c, end)) => unicode_at(chars@, at as int) == Some((c, end as int)) && at < end
                <= chars.len(),
            None => unicode_at(chars@, at as int) is None,
        },
{
    match hex(chars, at) {
        None => None,
        Some(n) => if 0xd800 <= n && n <= 0xdbff {
            if chars.len() - at < 6 || chars[at + 4] != '\\' || chars[at + 5] != 'u' {
                return None;
            }
            match hex(chars, at + 6) {
                Some(m) => if 0xdc00 <= m && m <= 0xdfff {
                    match char::from_u32(0x10000 + 1024 * (n - 0xd800) + (m - 0xdc00)) {
                        Some(c) => Some((c, at + 10)),
                        None => None,
                    }
                } else {
                    None
                },
                None => None,
            }
        } else if 0xdc00 <= n && n <= 0xdfff {
            None
        } else {
            match char::from_u32(n) {
                Some(c) => Some((c, at + 4)),
                None => None,
            }
        },
    }
}

/// The character an escape stands for whose `\` is right before `at`, and where
/// it ends.
fn escape(chars: &Vec<char>, at: usize) -> (found: Option<(char, usize)>)
    requires
        at <= chars@.len(),
    ensures
        match found {
            Some((c, end)) => escape_at(chars@, at as int) == Some((c, end as int)) && at < end
                <= chars.len(),
            None => escape_at(chars@, at as int) is None,
        },
{
    if at >= chars.len() {
        return None;
    }
    match chars[at] {
        '"' => Some(('"', at + 1)),
        '\\' => Some(('\\', at + 1)),
        '/' => Some(('/', at + 1)),
        'b' => Some(('\x08', at + 1)),
        'f' => Some(('\x0c', at + 1)),
        'n' => Some(('\n', at + 1)),
        'r' => Some(('\r', at + 1)),
        't' => Some(('\t', at + 1)),
        'u' => unicode(chars, at + 1),
        _ => None,
    }
}

/// `front`, followed by what `rest` holds.
pub open spec fn behind<T>(front: Seq<T>, rest: Option<(Seq<T>, int)>) -> Option<(Seq<T>, int)> {
    match rest {
        Some((rest, end)) => Some((front + rest, end)),
        None => None,
    }
}

/// The rest of a string from `at` on, and where it ends.
fn string(chars: &Vec<char>, at: usize) -> (found: Option<(Vec<char>, usize)>)
    requires
        at <= chars@.len(),
    ensures
        match found {
            Some((string, end)) => string_at(chars@, at as int) == Some((string@, end as int))
                && at < end <= chars.len(),
            None => string_at(chars@, at as int) is None,
        },
{
    let mut string: Vec<char> = Vec::new();
    let mut i: usize = at;
    proof {
        if let Some((rest, _)) = string_at(chars@, at as int) {
            assert(string@ + rest =~= rest);
        }
    }
    while i < chars.len()
        invariant
            at <= i <= chars.len(),
            string_at(chars@, at as int) == behind(string@, string_at(chars@, i as int)),
        decreases chars.len() - i,
    {
        let c = chars[i];
        let ghost before = string@;
        if c == '"' {
            assert(string@ + Seq::<char>::empty() =~= string@);
            return Some((string, i + 1));
        } else if c == '\\' {
            match escape(chars, i + 1) {
                Some((c, next)) => {
                    string.push(c);
                    i = next;
                },
                None => {
                    return None;
                },
            }
        } else if (c as u32) < 0x20 {
            return None;
        } else {
            string.push(c);
            i += 1;
        }
        proof {
            if let Some((rest, _)) = string_at(chars@, i as int) {
                assert(before + (seq![string@.last()] + rest) =~= string@ + rest);
            }
        }
    }
    None
}

/// `value`, if it is spelled out at `at`.
fn literal(chars: &Vec<char>, at: usize, name: &str, value: Value) -> (found: Option<
    (Value, usize),
>)
    ensures
        match found {
            Some((read, end)) => literal_at(chars@, at as int, name@, value@) == Some(
                (read@, end as int),
            ),
            None => literal_at(chars@, at as int, name@, value@) is None,
        },
{
    let name = chars_of(name);
    if crate::text::stands_at(chars, &name, at) {
        assert(at + name@.len() <= chars.len());
        Some((value, at + name.len()))
    } else {
        None
    }
}

/// The value at `at`, and where it ends.
fn value(chars: &Vec<char>, at: usize) -> (found: Option<(Value, usize)>)
    requires
        at <= chars@.len(),
    ensures
        match found {
            Some((read, end)) => value_at(chars@, at as int) == Some((read@, end as int)) && at
                < end <= chars.len(),
            None => value_at(chars@, at as int) is None,
        },
    decreases chars@.len() - at, 0nat,
{
    if at >= chars.len() {
        return None;
    }
    proof {
        lemma_value_end(chars@, at as int);
    }
    match chars[at] {
        '"' => match string(chars, at + 1) {
            Some((string, end)) => Some((Value::Text(string_of(&string)), end)),
            None => None,
        },
        '[' => {
            let next = skip_filler(chars, at + 1);
            if next < chars.len() && chars[next] == ']' {
                let items: Vec<Value> = Vec::new();
                Some((Value::Array(items), next + 1))
            } else {
                match items(chars, next) {
                    Some((items, end)) => Some((Value::Array(items), end)),
                    None => None,
                }
            }
        },
        '{' => {
            let next = skip_filler(chars, at + 1);
            if next < chars.len() && chars[next] == '}' {
                let members: Vec<Member> = Vec::new();
                Some((Value::Object(members), next + 1))
            } else {
                match members(chars, next) {
                    Some((members, end)) => Some((Value::Object(members), end)),
                    None => None,
                }
            }
        },
        'n' => literal(chars, at, "null", Value::Null),
        't' => literal(chars, at, "true", Value::Bool(true)),
        'f' => literal(chars, at, "false", Value::Bool(false)),
        _ => match number(chars, at) {
            Some(end) => {
                let number = slice(chars, at, end);
                Some((Value::Number(string_of(&number)), end))
            },
            None => None,
        },
    }
}

/// The items of an array from the one at `at` on, and where the array ends.
fn items(chars: &Vec<char>, at: usize) -> (found: Option<(Vec<Value>, usize)>)
    requires
        at <= chars@.len(),
    ensures
        match found {
            Some((items, end)) => items_at(chars@, at as int) == Some((jsons(items@), end as int)),
            None => items_at(chars@, at as int) is None,
        },
    decreases chars@.len() - at, 1nat,
{
    let mut items: Vec<Value> = Vec::new();
    let mut i: usize = at;
    proof {
        if let Some((rest, _)) = items_at(chars@, at as int) {
            assert(jsons(items@) + rest =~= rest);
        }
    }
    loop
        invariant
            at <= i <= chars.len(),
            items_at(chars@, at as int) == behind(jsons(items@), items_at(chars@, i as int)),
        decreases chars.len() - i,
    {
        match value(chars, i) {
            Some((item, end)) => {
                let next = skip_filler(chars, end);
                if next >= chars.len() {
                    return None;
                }
                let ghost before = items@;
                items.push(item);
                assert(items@.drop_last() =~= before);
                assert(jsons(before) + seq![item@] =~= jsons(items@));
                if chars[next] == ']' {
                    return Some((items, next + 1));
                }
                if chars[next] != ',' {
                    return None;
                }
                i = skip_filler(chars, next + 1);
                proof {
                    if let Some((rest, _)) = items_at(chars@, i as int) {
                        assert(jsons(before) + (seq![item@] + rest) =~= jsons(items@) + rest);
                    }
                }
            },
            None => {
                return None;
            },
        }
    }
}

/// The members of an object from the one at `at` on, and where the object ends.
fn members(chars: &Vec<char>, at: usize) -> (found: Option<(Vec<Member>, usize)>)
    requires
        at <= chars@.len(),
    ensures
        match found {
            Some((members, end)) => members_at(chars@, at as int) == Some(
                (fields(members@), end as int),
            ),
            None => members_at(chars@, at as int) is None,
        },
    decreases chars@.len() - at, 1nat,
{
    let mut members: Vec<Member> = Vec::new();
    let mut i: usize = at;
    proof {
        if let Some((rest, _)) = members_at(chars@, at as int) {
            assert(fields(members@) + rest =~= rest);
        }
    }
    loop
        invariant
            at <= i <= chars.len(),
            members_at(chars@, at as int) == behind(fields(members@), members_at(chars@, i as int)),
        decreases chars.len() - i,
    {
        if i >= chars.len() || chars[i] != '"' {
            return None;
        }
        let (name, end) = match string(chars, i + 1) {
            Some((name, end)) => (string_of(&name), end),
            None => {
                return None;
            },
        };
        let colon = skip_filler(chars, end);
        if colon >= chars.len() || chars[colon] != ':' {
            return None;
        }
        let start = skip_filler(chars, colon + 1);
        match value(chars, start) {
            Some((value, end)) => {
                let next = skip_filler(chars, end);
                if next >= chars.len() {
                    return None;
                }
                let ghost before = members@;
                let ghost field = (name@, value@);
                members.push(Member { name, value });
                assert(members@.drop_last() =~= before);
                assert(fields(before) + seq![field] =~= fields(members@));
                if chars[next] == '}' {
                    return Some((members, next + 1));
                }
                if chars[next] != ',' {
                    return None;
                }
                i = skip_filler(chars, next + 1);
                proof {
                    if let Some((rest, _)) = members_at(chars@, i as int) {
                        assert(fields(before) + (seq![field] + rest) =~= fields(members@) + rest);
                    }
                }
            },
            None => {
                return None;
            },
        }
    }
}

/// The value that `line` spells, if it spells exactly one.
pub fn parse(line: &str) -> (read: Option<Value>)
    ensures
        match read {
            Some(read) => parsed(line@) == Some(read@),
            None => parsed(line@) is None,
        },
{
    let chars = chars_of(line);
    let start = skip_filler(&chars, 0);
    match value(&chars, start) {
        Some((read, end)) => if skip_filler(&chars, end) == chars.len() {
            Some(read)
        } else {
            None
        },
        None => None,
    }
}

// ---------------------------------------------------------------------------
// Looking inside.
// ---------------------------------------------------------------------------

/// What the first of `fields` named `name` is set to.
pub open spec fn field(fields: Seq<(Seq<char>, Json)>, name: Seq<char>) -> Option<Json>
    decreases fields.len(),
{
    if fields.len() == 0 {
        None
    } else if fields[0].0 == name {
        Some(fields[0].1)
    } else {
        field(fields.skip(1), name)
    }
}

/// The text at the end of a path of keys, if every step of it is there.
pub open spec fn text_at(value: Json, path: Seq<Seq<char>>) -> Option<Seq<char>>
    decreases path.len(),
{
    if path.len() == 0 {
        match value {
            Json::Text(text) => Some(text),
            _ => None,
        }
    } else {
        match value {
            Json::Object(fields) => match field(fields, path[0]) {
                Some(value) => text_at(value, path.skip(1)),
                None => None,
            },
            _ => None,
        }
    }
}

proof fn lemma_fields(members: Seq<Member>)
    ensures
        fields(members).len() == members.len(),
        forall|i: int|
            0 <= i < members.len() ==> #[trigger] fields(members)[i] == (
                members[i].name@,
                json(members[i].value),
            ),
    decreases members.len(),
{
    if members.len() != 0 {
        lemma_fields(members.drop_last());
    }
}

impl Value {
    /// What the member called `name` is set to, if this is an object that has
    /// one.
    fn get(&self, name: &str) -> (found: Option<&Value>)
        ensures
            match found {
                Some(found) => self@ is Object && field(self@->Object_0, name@) == Some(found@),
                None => self@ is Object ==> field(self@->Object_0, name@) is None,
            },
    {
        match self {
            Value::Object(members) => {
                let ghost all = fields(members@);
                proof {
                    lemma_fields(members@);
                    assert(all.skip(0) =~= all);
                }
                for i in 0..members.len()
                    invariant
                        all == fields(members@),
                        self@ == Json::Object(all),
                        all.len() == members@.len(),
                        forall|i: int|
                            0 <= i < members@.len() ==> #[trigger] all[i] == (
                                members@[i].name@,
                                json(members@[i].value),
                            ),
                        field(all, name@) == field(all.skip(i as int), name@),
                {
                    assert(all.skip(i as int)[0] == all[i as int]);
                    assert(all.skip(i as int).skip(1) =~= all.skip(i + 1));
                    if same_str(members[i].name.as_str(), name) {
                        return Some(&members[i].value);
                    }
                }
                None
            },
            _ => None,
        }
    }

    /// The text at the end of a path of keys, if every step of it is there.
    pub fn path_str(&self, path: &[&str]) -> (found: Option<&str>)
        ensures
            match found {
                Some(found) => text_at(self@, keys(path@)) == Some(found@),
                None => text_at(self@, keys(path@)) is None,
            },
    {
        let mut value: &Value = self;
        let ghost all = keys(path@);
        proof {
            assert(all.skip(0) =~= all);
        }
        for i in 0..path.len()
            invariant
                all == keys(path@),
                text_at(self@, all) == text_at(value@, all.skip(i as int)),
        {
            assert(all.skip(i as int)[0] == path@[i as int]@);
            assert(all.skip(i as int).skip(1) =~= all.skip(i + 1));
            match value.get(path[i]) {
                Some(next) => {
                    value = next;
                },
                None => {
                    return None;
                },
            }
        }
        match value {
            Value::Text(text) => Some(text.as_str()),
            _ => None,
        }
    }
}

/// The texts that `path` holds.
pub open spec fn keys(path: Seq<&str>) -> Seq<Seq<char>> {
    path.map_values(|key: &str| key@)
}

} // verus!
