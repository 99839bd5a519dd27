//! Which texts are JSON, and what each of them spells.

use vstd::prelude::*;

use crate::json;
use crate::json::Json;
use crate::laws::manifest::{digit_value, number_of};
use crate::text;

verus! {

// ---------------------------------------------------------------------------
// What can be written.
// ---------------------------------------------------------------------------

/// One character of a string, as it can be written.
pub enum Letter {
    /// As it is.
    Plain(char),
    /// By a letter behind a backslash.
    Escape(char),
    /// By four digits.
    Code(Seq<char>),
    /// By four digits for each of its halves.
    Pair(Seq<char>, Seq<char>),
}

/// A number, as it can be written.
pub struct Numeral {
    /// It is negative.
    pub minus: bool,
    /// What stands before the point.
    pub whole: Seq<char>,
    /// What stands behind it, where there is one.
    pub fraction: Option<Seq<char>>,
    /// What stands before the digits of the exponent, where there is one, and those.
    pub exponent: Option<(Seq<char>, Seq<char>)>,
}

/// A value, as it can be written.
pub enum Spelling {
    /// `null`.
    Null,
    /// `true` or `false`.
    Bool(bool),
    /// A number.
    Number(Numeral),
    /// A string.
    Text(Seq<Letter>),
    /// An array with nothing but white space in it.
    NoItems(Seq<char>),
    /// An array.
    Array(Seq<Item>),
    /// An object with nothing but white space in it.
    NoMembers(Seq<char>),
    /// An object.
    Object(Seq<Field>),
}

/// An item of an array, with the white space around it.
pub struct Item {
    /// What stands before it.
    pub before: Seq<char>,
    /// The item.
    pub value: Spelling,
    /// What stands behind it.
    pub after: Seq<char>,
}

/// A member of an object, with the white space in and around it.
pub struct Field {
    /// What stands before it.
    pub before: Seq<char>,
    /// Its name.
    pub name: Seq<Letter>,
    /// What stands before the colon.
    pub between: Seq<char>,
    /// What stands behind the colon.
    pub behind: Seq<char>,
    /// What it is set to.
    pub value: Spelling,
    /// What stands behind it.
    pub after: Seq<char>,
}

/// White space between tokens.
pub open spec fn is_blank(text: Seq<char>) -> bool {
    forall|i: int|
        0 <= i < text.len() ==> {
            ||| #[trigger] text[i] == ' '
            ||| text[i] == '\t'
            ||| text[i] == '\n'
            ||| text[i] == '\r'
        }
}

/// Nothing but decimal digits.
pub open spec fn is_digits(text: Seq<char>) -> bool {
    forall|i: int| 0 <= i < text.len() ==> '0' <= #[trigger] text[i] && text[i] <= '9'
}

/// What a letter behind a backslash stands for.
pub open spec fn escaped(c: char) -> Option<char> {
    if c == '"' || c == '\\' || c == '/' {
        Some(c)
    } else if c == 'b' {
        Some('\x08')
    } else if c == 'f' {
        Some('\x0c')
    } else if c == 'n' {
        Some('\n')
    } else if c == 'r' {
        Some('\r')
    } else if c == 't' {
        Some('\t')
    } else {
        None
    }
}

/// `digits` are four hexadecimal ones that stand for a number from `low` to `high`.
pub open spec fn is_code(digits: Seq<char>, low: int, high: int) -> bool {
    &&& digits.len() == 4
    &&& number_of(digits) matches Some(n) && low <= n <= high
}

/// `letter` can be written.
pub open spec fn is_letter(letter: Letter) -> bool {
    match letter {
        Letter::Plain(c) => c != '"' && c != '\\' && c as u32 >= 0x20,
        Letter::Escape(c) => escaped(c) is Some,
        Letter::Code(digits) => is_code(digits, 0, 0xd7ff) || is_code(digits, 0xe000, 0xffff),
        Letter::Pair(high, low) => is_code(high, 0xd800, 0xdbff) && is_code(low, 0xdc00, 0xdfff),
    }
}

/// How `letter` is written.
pub open spec fn letter_text(letter: Letter) -> Seq<char> {
    match letter {
        Letter::Plain(c) => seq![c],
        Letter::Escape(c) => seq!['\\', c],
        Letter::Code(digits) => seq!['\\', 'u'] + digits,
        Letter::Pair(high, low) => seq!['\\', 'u'] + high + seq!['\\', 'u'] + low,
    }
}

/// The character that `letter` stands for.
pub open spec fn letter_means(letter: Letter) -> char {
    match letter {
        Letter::Plain(c) => c,
        Letter::Escape(c) => escaped(c)->0,
        Letter::Code(digits) => number_of(digits)->0 as char,
        Letter::Pair(high, low) => (0x10000 + 0x400 * (number_of(high)->0 - 0xd800) + (number_of(
            low,
        )->0 - 0xdc00)) as char,
    }
}

/// Each of `letters` can be written.
pub open spec fn are_letters(letters: Seq<Letter>) -> bool {
    forall|i: int| 0 <= i < letters.len() ==> is_letter(#[trigger] letters[i])
}

/// How `letters` are written.
pub open spec fn letters_text(letters: Seq<Letter>) -> Seq<char>
    decreases letters.len(),
{
    if letters.len() == 0 {
        seq![]
    } else {
        letter_text(letters[0]) + letters_text(letters.skip(1))
    }
}

/// What `letters` stand for.
pub open spec fn letters_mean(letters: Seq<Letter>) -> Seq<char> {
    Seq::new(letters.len(), |i: int| letter_means(letters[i]))
}

/// `numeral` can be written: no zero stands before other digits, and a point and an
/// exponent have digits behind them.
pub open spec fn is_numeral(numeral: Numeral) -> bool {
    &&& is_digits(numeral.whole)
    &&& numeral.whole.len() == 1 || (numeral.whole.len() > 1 && numeral.whole[0] != '0')
    &&& numeral.fraction matches Some(digits) ==> digits.len() != 0 && is_digits(digits)
    &&& numeral.exponent matches Some((mark, digits)) ==> {
        &&& digits.len() != 0 && is_digits(digits)
        &&& mark.len() == 1 || (mark.len() == 2 && (mark[1] == '+' || mark[1] == '-'))
        &&& mark[0] == 'e' || mark[0] == 'E'
    }
}

/// How the exponent of `numeral` is written.
pub open spec fn exponent_text(numeral: Numeral) -> Seq<char> {
    match numeral.exponent {
        Some((mark, digits)) => mark + digits,
        None => seq![],
    }
}

/// How the fraction of `numeral` is written.
pub open spec fn fraction_text(numeral: Numeral) -> Seq<char> {
    match numeral.fraction {
        Some(digits) => seq!['.'] + digits,
        None => seq![],
    }
}

/// How the sign of `numeral` is written.
pub open spec fn sign_text(numeral: Numeral) -> Seq<char> {
    if numeral.minus {
        seq!['-']
    } else {
        seq![]
    }
}

/// How `numeral` is written.
pub open spec fn numeral_text(numeral: Numeral) -> Seq<char> {
    sign_text(numeral) + numeral.whole + fraction_text(numeral) + exponent_text(numeral)
}

/// `value` can be written.
pub open spec fn is_spelling(value: Spelling) -> bool
    decreases value,
{
    match value {
        Spelling::Null => true,
        Spelling::Bool(_) => true,
        Spelling::Number(numeral) => is_numeral(numeral),
        Spelling::Text(letters) => are_letters(letters),
        Spelling::NoItems(blank) => is_blank(blank),
        Spelling::Array(items) => items.len() != 0 && are_items(items),
        Spelling::NoMembers(blank) => is_blank(blank),
        Spelling::Object(fields) => fields.len() != 0 && are_fields(fields),
    }
}

/// Each of `items` can be written.
pub open spec fn are_items(items: Seq<Item>) -> bool
    decreases items,
{
    items.len() == 0 || {
        &&& is_blank(items[0].before)
        &&& is_spelling(items[0].value)
        &&& is_blank(items[0].after)
        &&& are_items(items.skip(1))
    }
}

/// Each of `fields` can be written.
pub open spec fn are_fields(fields: Seq<Field>) -> bool
    decreases fields,
{
    fields.len() == 0 || {
        &&& is_blank(fields[0].before)
        &&& are_letters(fields[0].name)
        &&& is_blank(fields[0].between)
        &&& is_blank(fields[0].behind)
        &&& is_spelling(fields[0].value)
        &&& is_blank(fields[0].after)
        &&& are_fields(fields.skip(1))
    }
}

/// How `value` is written.
pub open spec fn spelled(value: Spelling) -> Seq<char>
    decreases value,
{
    match value {
        Spelling::Null => "null"@,
        Spelling::Bool(true) => "true"@,
        Spelling::Bool(false) => "false"@,
        Spelling::Number(numeral) => numeral_text(numeral),
        Spelling::Text(letters) => seq!['"'] + letters_text(letters) + seq!['"'],
        Spelling::NoItems(blank) => seq!['['] + blank + seq![']'],
        Spelling::Array(items) => seq!['['] + items_text(items),
        Spelling::NoMembers(blank) => seq!['{'] + blank + seq!['}'],
        Spelling::Object(fields) => seq!['{'] + fields_text(fields),
    }
}

/// How `items` are written, with a comma between two, up to the end of their array.
pub open spec fn items_text(items: Seq<Item>) -> Seq<char>
    decreases items,
{
    if items.len() == 0 {
        seq![]
    } else if items.len() == 1 {
        items[0].before + spelled(items[0].value) + items[0].after + seq![']']
    } else {
        items[0].before + spelled(items[0].value) + items[0].after + seq![','] + items_text(
            items.skip(1),
        )
    }
}

/// How `fields` are written, with a comma between two, up to the end of their object.
pub open spec fn fields_text(fields: Seq<Field>) -> Seq<char>
    decreases fields,
{
    if fields.len() == 0 {
        seq![]
    } else {
        let first = fields[0].before + seq!['"'] + letters_text(fields[0].name) + seq!['"']
            + fields[0].between + seq![':'] + fields[0].behind + spelled(fields[0].value)
            + fields[0].after;
        if fields.len() == 1 {
            first + seq!['}']
        } else {
            first + seq![','] + fields_text(fields.skip(1))
        }
    }
}

/// What `value` stands for.
pub open spec fn means(value: Spelling) -> Json
    decreases value,
{
    match value {
        Spelling::Null => Json::Null,
        Spelling::Bool(yes) => Json::Bool(yes),
        Spelling::Number(numeral) => Json::Number(numeral_text(numeral)),
        Spelling::Text(letters) => Json::Text(letters_mean(letters)),
        Spelling::NoItems(_) => Json::Array(seq![]),
        Spelling::Array(items) => Json::Array(items_mean(items)),
        Spelling::NoMembers(_) => Json::Object(seq![]),
        Spelling::Object(fields) => Json::Object(fields_mean(fields)),
    }
}

/// What `items` stand for.
pub open spec fn items_mean(items: Seq<Item>) -> Seq<Json>
    decreases items,
{
    if items.len() == 0 {
        seq![]
    } else {
        seq![means(items[0].value)] + items_mean(items.skip(1))
    }
}

/// What `fields` stand for.
pub open spec fn fields_mean(fields: Seq<Field>) -> Seq<(Seq<char>, Json)>
    decreases fields,
{
    if fields.len() == 0 {
        seq![]
    } else {
        seq![(letters_mean(fields[0].name), means(fields[0].value))] + fields_mean(fields.skip(1))
    }
}

// ---------------------------------------------------------------------------
// Reading what is written.
// ---------------------------------------------------------------------------

/// `part` stands in `text` at `at`.
spec fn stands(text: Seq<char>, at: int, part: Seq<char>) -> bool {
    0 <= at && at + part.len() <= text.len() && text.subrange(at, at + part.len()) == part
}

proof fn lemma_stands_in_two(text: Seq<char>, at: int, a: Seq<char>, b: Seq<char>)
    ensures
        stands(text, at, a + b) <==> stands(text, at, a) && stands(text, at + a.len(), b),
{
    let n = at + a.len();
    let end = n + b.len();
    if stands(text, at, a + b) {
        let whole = text.subrange(at, end);
        assert(text.subrange(at, n) =~= whole.subrange(0, a.len() as int));
        assert((a + b).subrange(0, a.len() as int) =~= a);
        assert(text.subrange(n, end) =~= whole.subrange(a.len() as int, whole.len() as int));
        assert((a + b).subrange(a.len() as int, whole.len() as int) =~= b);
    }
    if stands(text, at, a) && stands(text, n, b) {
        assert(text.subrange(at, end) =~= text.subrange(at, n) + text.subrange(n, end));
    }
}

proof fn lemma_stands_char(text: Seq<char>, at: int, c: char)
    ensures
        stands(text, at, seq![c]) <==> 0 <= at < text.len() && text[at] == c,
{
    if 0 <= at < text.len() {
        assert(text.subrange(at, at + 1) =~= seq![text[at]]);
        assert(text.subrange(at, at + 1)[0] == text[at]);
        assert(seq![c][0] == c);
    }
}

proof fn lemma_blank_end(text: Seq<char>, at: int, blank: Seq<char>)
    requires
        stands(text, at, blank),
        is_blank(blank),
        at + blank.len() < text.len() ==> !json::is_filler(text[at + blank.len()]),
    ensures
        json::filler_end(text, at) == at + blank.len(),
    decreases blank.len(),
{
    if blank.len() != 0 {
        let rest = blank.skip(1);
        assert(text.subrange(at, at + blank.len())[0] == text[at]);
        assert(blank[0] == text[at]);
        assert(seq![blank[0]] + rest =~= blank);
        lemma_stands_in_two(text, at, seq![blank[0]], rest);
        assert forall|i: int| 0 <= i < rest.len() implies {
            ||| #[trigger] rest[i] == ' '
            ||| rest[i] == '\t'
            ||| rest[i] == '\n'
            ||| rest[i] == '\r'
        } by {
            assert(rest[i] == blank[i + 1]);
        }
        lemma_blank_end(text, at + 1, rest);
    }
}

proof fn lemma_digits_end(text: Seq<char>, at: int, digits: Seq<char>)
    requires
        stands(text, at, digits),
        is_digits(digits),
        at + digits.len() < text.len() ==> !json::is_digit(text[at + digits.len()]),
    ensures
        json::digits_end(text, at) == at + digits.len(),
    decreases digits.len(),
{
    if digits.len() != 0 {
        let rest = digits.skip(1);
        assert(text.subrange(at, at + digits.len())[0] == text[at]);
        assert(digits[0] == text[at]);
        assert(seq![digits[0]] + rest =~= digits);
        lemma_stands_in_two(text, at, seq![digits[0]], rest);
        assert forall|i: int| 0 <= i < rest.len() implies '0' <= #[trigger] rest[i] && rest[i]
            <= '9' by {
            assert(rest[i] == digits[i + 1]);
        }
        lemma_digits_end(text, at + 1, rest);
    }
}

proof fn lemma_hex(text: Seq<char>, at: int, digits: Seq<char>)
    requires
        stands(text, at, digits),
        digits.len() == 4,
    ensures
        match json::hex_at(text, at) {
            Some(n) => number_of(digits) == Some(n as int),
            None => number_of(digits) is None,
        },
{
    let part = text.subrange(at, at + 4);
    assert(part[0] == text[at] && part[1] == text[at + 1]);
    assert(part[2] == text[at + 2] && part[3] == text[at + 3]);
    reveal_with_fuel(number_of, 5);
    let three = digits.drop_last();
    let two = three.drop_last();
    let one = two.drop_last();
    assert(one.drop_last().len() == 0);
    assert(digits.last() == text[at + 3] && three.last() == text[at + 2]);
    assert(two.last() == text[at + 1] && one.last() == text[at]);
    lemma_digit(text[at]);
    lemma_digit(text[at + 1]);
    lemma_digit(text[at + 2]);
    lemma_digit(text[at + 3]);
}

proof fn lemma_digit(c: char)
    ensures
        match json::hex_digit(c) {
            Some(n) => digit_value(c) == Some(n as int) && n < 16,
            None => digit_value(c) is None,
        },
{
}

#[verifier::rlimit(40)]
proof fn lemma_letter(text: Seq<char>, at: int, letter: Letter)
    requires
        is_letter(letter),
        stands(text, at, letter_text(letter)),
    ensures
        letter is Plain ==> text[at] == letter->Plain_0,
        letter !is Plain ==> text[at] == '\\' && json::escape_at(text, at + 1) == Some(
            (letter_means(letter), at + letter_text(letter).len()),
        ),
{
    match letter {
        Letter::Plain(c) => lemma_stands_char(text, at, c),
        Letter::Escape(c) => {
            assert(seq!['\\', c] =~= seq!['\\'] + seq![c]);
            lemma_stands_in_two(text, at, seq!['\\'], seq![c]);
            lemma_stands_char(text, at, '\\');
            lemma_stands_char(text, at + 1, c);
        },
        Letter::Code(digits) => {
            assert(letter_text(letter) =~= seq!['\\'] + (seq!['u'] + digits));
            lemma_stands_in_two(text, at, seq!['\\'], seq!['u'] + digits);
            lemma_stands_in_two(text, at + 1, seq!['u'], digits);
            lemma_stands_char(text, at, '\\');
            lemma_stands_char(text, at + 1, 'u');
            lemma_hex(text, at + 2, digits);
        },
        Letter::Pair(high, low) => {
            let second = seq!['\\'] + (seq!['u'] + low);
            assert(letter_text(letter) =~= seq!['\\'] + (seq!['u'] + (high + second)));
            lemma_stands_in_two(text, at, seq!['\\'], seq!['u'] + (high + second));
            lemma_stands_in_two(text, at + 1, seq!['u'], high + second);
            lemma_stands_in_two(text, at + 2, high, second);
            lemma_stands_in_two(text, at + 6, seq!['\\'], seq!['u'] + low);
            lemma_stands_in_two(text, at + 7, seq!['u'], low);
            lemma_stands_char(text, at, '\\');
            lemma_stands_char(text, at + 1, 'u');
            lemma_stands_char(text, at + 6, '\\');
            lemma_stands_char(text, at + 7, 'u');
            lemma_hex(text, at + 2, high);
            lemma_hex(text, at + 8, low);
        },
    }
}

proof fn lemma_letters(text: Seq<char>, at: int, letters: Seq<Letter>)
    requires
        are_letters(letters),
        stands(text, at, letters_text(letters) + seq!['"']),
    ensures
        json::string_at(text, at) == Some(
            (letters_mean(letters), at + letters_text(letters).len() + 1),
        ),
    decreases letters.len(),
{
    if letters.len() == 0 {
        assert(letters_text(letters) + seq!['"'] =~= seq!['"']);
        lemma_stands_char(text, at, '"');
        assert(letters_mean(letters) =~= seq![]);
    } else {
        let letter = letters[0];
        let rest = letters.skip(1);
        let part = letter_text(letter);
        assert(letters_text(letters) + seq!['"'] =~= part + (letters_text(rest) + seq!['"']));
        lemma_stands_in_two(text, at, part, letters_text(rest) + seq!['"']);
        assert forall|i: int| 0 <= i < rest.len() implies is_letter(#[trigger] rest[i]) by {
            assert(rest[i] == letters[i + 1]);
        }
        lemma_letters(text, at + part.len(), rest);
        assert(is_letter(letter));
        lemma_letter(text, at, letter);
        assert(letters_mean(letters) =~= seq![letter_means(letter)] + letters_mean(rest));
    }
}

/// What can stand behind a value.
spec fn can_follow(text: Seq<char>, at: int) -> bool {
    at < text.len() ==> json::is_filler(text[at]) || text[at] == ',' || text[at] == ']' || text[at]
        == '}'
}

#[verifier::rlimit(40)]
proof fn lemma_numeral(text: Seq<char>, at: int, numeral: Numeral)
    requires
        is_numeral(numeral),
        stands(text, at, numeral_text(numeral)),
        can_follow(text, at + numeral_text(numeral).len()),
    ensures
        json::number_end(text, at) == Some(at + numeral_text(numeral).len()),
        text[at] == '-' || '0' <= text[at] && text[at] <= '9',
{
    let sign = sign_text(numeral);
    let whole = numeral.whole;
    let fraction = fraction_text(numeral);
    let exponent = exponent_text(numeral);
    assert(numeral_text(numeral) =~= sign + (whole + (fraction + exponent)));
    lemma_stands_in_two(text, at, sign, whole + (fraction + exponent));
    let a = at + sign.len();
    lemma_stands_in_two(text, a, whole, fraction + exponent);
    let b = a + whole.len();
    lemma_stands_in_two(text, b, fraction, exponent);
    let c = b + fraction.len();
    let d = c + exponent.len();
    lemma_stands_char(text, at, '-');
    assert(text.subrange(a, b)[0] == text[a]);
    assert(whole[0] == text[a]);
    if let Some((mark, digits)) = numeral.exponent {
        lemma_stands_in_two(text, c, mark, digits);
        let e = c + mark.len();
        assert(text.subrange(c, e)[0] == text[c]);
        assert(mark.len() == 2 ==> text.subrange(c, e)[1] == text[c + 1]);
        assert(text.subrange(e, d)[0] == text[e]);
        assert(digits[0] == text[e]);
        lemma_digits_end(text, e, digits);
    }
    assert(json::exponent_end(text, c) == Some(d));
    if let Some(digits) = numeral.fraction {
        lemma_stands_in_two(text, b, seq!['.'], digits);
        lemma_stands_char(text, b, '.');
        lemma_digits_end(text, b + 1, digits);
    }
    assert(json::fraction_end(text, b) == Some(c));
    if whole[0] != '0' {
        lemma_digits_end(text, a, whole);
    }
    assert(json::integer_end(text, a) == Some(b));
}

#[verifier::rlimit(40)]
proof fn lemma_value(text: Seq<char>, at: int, value: Spelling)
    requires
        is_spelling(value),
        stands(text, at, spelled(value)),
        can_follow(text, at + spelled(value).len()),
    ensures
        json::value_at(text, at) == Some((means(value), at + spelled(value).len())),
        at < text.len() && !json::is_filler(text[at]) && text[at] != ']' && text[at] != '}',
    decreases value,
{
    match value {
        Spelling::Null => {
            reveal_strlit("null");
            assert(text.subrange(at, at + 4)[0] == text[at]);
        },
        Spelling::Bool(yes) => {
            reveal_strlit("true");
            reveal_strlit("false");
            assert(text.subrange(at, at + spelled(value).len())[0] == text[at]);
        },
        Spelling::Number(numeral) => {
            lemma_numeral(text, at, numeral);
        },
        Spelling::Text(letters) => {
            assert(spelled(value) =~= seq!['"'] + (letters_text(letters) + seq!['"']));
            lemma_stands_in_two(text, at, seq!['"'], letters_text(letters) + seq!['"']);
            lemma_stands_char(text, at, '"');
            lemma_letters(text, at + 1, letters);
        },
        Spelling::NoItems(blank) => {
            assert(spelled(value) =~= seq!['['] + (blank + seq![']']));
            lemma_stands_in_two(text, at, seq!['['], blank + seq![']']);
            lemma_stands_in_two(text, at + 1, blank, seq![']']);
            lemma_stands_char(text, at, '[');
            lemma_stands_char(text, at + 1 + blank.len(), ']');
            lemma_blank_end(text, at + 1, blank);
        },
        Spelling::Array(items) => {
            lemma_stands_in_two(text, at, seq!['['], items_text(items));
            lemma_stands_char(text, at, '[');
            lemma_items(text, at + 1, items);
        },
        Spelling::NoMembers(blank) => {
            assert(spelled(value) =~= seq!['{'] + (blank + seq!['}']));
            lemma_stands_in_two(text, at, seq!['{'], blank + seq!['}']);
            lemma_stands_in_two(text, at + 1, blank, seq!['}']);
            lemma_stands_char(text, at, '{');
            lemma_stands_char(text, at + 1 + blank.len(), '}');
            lemma_blank_end(text, at + 1, blank);
        },
        Spelling::Object(fields) => {
            lemma_stands_in_two(text, at, seq!['{'], fields_text(fields));
            lemma_stands_char(text, at, '{');
            lemma_fields(text, at + 1, fields);
        },
    }
}

#[verifier::rlimit(40)]
proof fn lemma_items(text: Seq<char>, at: int, items: Seq<Item>)
    requires
        items.len() != 0,
        are_items(items),
        stands(text, at, items_text(items)),
    ensures
        json::items_at(text, json::filler_end(text, at)) == Some(
            (items_mean(items), at + items_text(items).len()),
        ),
        json::filler_end(text, at) < text.len() && text[json::filler_end(text, at)] != ']',
    decreases items,
{
    let item = items[0];
    let rest = items.skip(1);
    let value = spelled(item.value);
    let end = if items.len() == 1 {
        seq![']']
    } else {
        seq![','] + items_text(rest)
    };
    assert(items_text(items) =~= item.before + (value + (item.after + end)));
    lemma_stands_in_two(text, at, item.before, value + (item.after + end));
    let a = at + item.before.len();
    lemma_stands_in_two(text, a, value, item.after + end);
    let b = a + value.len();
    lemma_stands_in_two(text, b, item.after, end);
    let c = b + item.after.len();
    if items.len() == 1 {
        lemma_stands_char(text, c, ']');
    } else {
        lemma_stands_in_two(text, c, seq![','], items_text(rest));
        lemma_stands_char(text, c, ',');
    }
    lemma_after(text, b, item.after);
    lemma_value(text, a, item.value);
    lemma_blank_end(text, at, item.before);
    lemma_blank_end(text, b, item.after);
    if items.len() == 1 {
        assert(items_mean(rest) =~= Seq::<Json>::empty());
        assert(items_mean(items) =~= seq![means(item.value)]);
    } else {
        lemma_items(text, c + 1, rest);
    }
}

/// What stands behind a value and the white space after it can follow the value.
proof fn lemma_after(text: Seq<char>, at: int, blank: Seq<char>)
    requires
        is_blank(blank),
        stands(text, at, blank),
        at + blank.len() < text.len(),
        ({
            let c = text[at + blank.len()];
            c == ',' || c == ']' || c == '}'
        }),
    ensures
        can_follow(text, at),
{
    if blank.len() != 0 {
        assert(text.subrange(at, at + blank.len())[0] == text[at]);
        assert(blank[0] == text[at]);
    }
}

#[verifier::rlimit(40)]
proof fn lemma_fields(text: Seq<char>, at: int, fields: Seq<Field>)
    requires
        fields.len() != 0,
        are_fields(fields),
        stands(text, at, fields_text(fields)),
    ensures
        json::members_at(text, json::filler_end(text, at)) == Some(
            (fields_mean(fields), at + fields_text(fields).len()),
        ),
        json::filler_end(text, at) < text.len() && text[json::filler_end(text, at)] != '}',
    decreases fields,
{
    let field = fields[0];
    let rest = fields.skip(1);
    let name = letters_text(field.name) + seq!['"'];
    let value = spelled(field.value);
    let end = if fields.len() == 1 {
        seq!['}']
    } else {
        seq![','] + fields_text(rest)
    };
    let e = field.after + end;
    let d = value + e;
    let c = seq![':'] + (field.behind + d);
    let b = field.between + c;
    let a = seq!['"'] + (name + b);
    assert(fields_text(fields) =~= field.before + a);
    lemma_stands_in_two(text, at, field.before, a);
    let p = at + field.before.len();
    lemma_stands_in_two(text, p, seq!['"'], name + b);
    lemma_stands_char(text, p, '"');
    lemma_stands_in_two(text, p + 1, name, b);
    let q = p + 1 + name.len();
    lemma_stands_in_two(text, q, field.between, c);
    let r = q + field.between.len();
    lemma_stands_in_two(text, r, seq![':'], field.behind + d);
    lemma_stands_char(text, r, ':');
    lemma_stands_in_two(text, r + 1, field.behind, d);
    let s = r + 1 + field.behind.len();
    lemma_stands_in_two(text, s, value, e);
    let t = s + value.len();
    lemma_stands_in_two(text, t, field.after, end);
    let u = t + field.after.len();
    if fields.len() == 1 {
        lemma_stands_char(text, u, '}');
    } else {
        lemma_stands_in_two(text, u, seq![','], fields_text(rest));
        lemma_stands_char(text, u, ',');
    }
    lemma_after(text, t, field.after);
    lemma_value(text, s, field.value);
    lemma_letters(text, p + 1, field.name);
    lemma_blank_end(text, at, field.before);
    lemma_blank_end(text, q, field.between);
    lemma_blank_end(text, r + 1, field.behind);
    lemma_blank_end(text, t, field.after);
    if fields.len() == 1 {
        assert(fields_mean(rest) =~= Seq::<(Seq<char>, Json)>::empty());
        assert(fields_mean(fields) =~= seq![(letters_mean(field.name), means(field.value))]);
    } else {
        lemma_fields(text, u + 1, rest);
    }
}

/// Whatever a value is spelled like, with whatever white space around it, it is
/// read as what it stands for.
pub proof fn law_every_spelling_is_read(before: Seq<char>, value: Spelling, after: Seq<char>)
    requires
        is_blank(before),
        is_spelling(value),
        is_blank(after),
    ensures
        json::parsed(before + spelled(value) + after) == Some(means(value)),
{
    let text = before + spelled(value) + after;
    let at = before.len() as int;
    let end = at + spelled(value).len();
    assert(text.subrange(0, at) =~= before);
    assert(text.subrange(at, end) =~= spelled(value));
    assert(text.subrange(end, text.len() as int) =~= after);
    if after.len() != 0 {
        assert(text[end] == after[0]);
    }
    lemma_value(text, at, value);
    lemma_blank_end(text, 0, before);
    lemma_blank_end(text, end, after);
}

// ---------------------------------------------------------------------------
// What is read was written.
// ---------------------------------------------------------------------------

proof fn lemma_was_blank(text: Seq<char>, at: int)
    requires
        0 <= at <= text.len(),
    ensures
        at <= json::filler_end(text, at) <= text.len(),
        is_blank(text.subrange(at, json::filler_end(text, at))),
    decreases text.len() - at,
{
    json::lemma_filler_end(text, at);
    if at < text.len() && json::is_filler(text[at]) {
        lemma_was_blank(text, at + 1);
        let end = json::filler_end(text, at);
        let blank = text.subrange(at, end);
        let rest = text.subrange(at + 1, end);
        assert forall|i: int| 0 <= i < blank.len() implies {
            ||| #[trigger] blank[i] == ' '
            ||| blank[i] == '\t'
            ||| blank[i] == '\n'
            ||| blank[i] == '\r'
        } by {
            if i > 0 {
                assert(blank[i] == rest[i - 1]);
            }
        }
    }
}

proof fn lemma_were_digits(text: Seq<char>, at: int)
    requires
        0 <= at <= text.len(),
    ensures
        at <= json::digits_end(text, at) <= text.len(),
        is_digits(text.subrange(at, json::digits_end(text, at))),
    decreases text.len() - at,
{
    json::lemma_digits_end(text, at);
    if at < text.len() && json::is_digit(text[at]) {
        lemma_were_digits(text, at + 1);
        let end = json::digits_end(text, at);
        let digits = text.subrange(at, end);
        let rest = text.subrange(at + 1, end);
        assert forall|i: int| 0 <= i < digits.len() implies '0' <= #[trigger] digits[i]
            && digits[i] <= '9' by {
            if i > 0 {
                assert(digits[i] == rest[i - 1]);
            }
        }
    }
}

proof fn lemma_was_escape(text: Seq<char>, at: int) -> (letter: Letter)
    requires
        0 <= at < text.len(),
        text[at] == '\\',
        json::escape_at(text, at + 1) is Some,
    ensures
        is_letter(letter),
        stands(text, at, letter_text(letter)),
        json::escape_at(text, at + 1) == Some(
            (letter_means(letter), at + letter_text(letter).len()),
        ),
{
    let c = text[at + 1];
    if c != 'u' {
        let letter = Letter::Escape(c);
        assert(text.subrange(at, at + 2) =~= seq!['\\', c]);
        letter
    } else {
        let high = text.subrange(at + 2, at + 6);
        lemma_hex(text, at + 2, high);
        let n = json::hex_at(text, at + 2)->0;
        if json::is_high_half(n) {
            let low = text.subrange(at + 8, at + 12);
            lemma_hex(text, at + 8, low);
            let letter = Letter::Pair(high, low);
            assert(text.subrange(at, at + 12) =~= letter_text(letter));
            letter
        } else {
            let letter = Letter::Code(high);
            assert(text.subrange(at, at + 6) =~= letter_text(letter));
            letter
        }
    }
}

proof fn lemma_one_more_letter(letter: Letter, rest: Seq<Letter>)
    requires
        is_letter(letter),
        are_letters(rest),
    ensures
        are_letters(seq![letter] + rest),
        letters_text(seq![letter] + rest) == letter_text(letter) + letters_text(rest),
        letters_mean(seq![letter] + rest) == seq![letter_means(letter)] + letters_mean(rest),
{
    let letters = seq![letter] + rest;
    assert(letters.skip(1) =~= rest);
    assert(letters[0] == letter);
    assert(letters_mean(letters) =~= seq![letter_means(letter)] + letters_mean(rest));
    assert forall|i: int| 0 <= i < letters.len() implies is_letter(#[trigger] letters[i]) by {
        if i > 0 {
            assert(letters[i] == rest[i - 1]);
        }
    }
}

proof fn lemma_were_letters(text: Seq<char>, at: int) -> (letters: Seq<Letter>)
    requires
        json::string_at(text, at) is Some,
    ensures
        are_letters(letters),
        stands(text, at, letters_text(letters) + seq!['"']),
        json::string_at(text, at) == Some(
            (letters_mean(letters), at + letters_text(letters).len() + 1),
        ),
    decreases text.len() - at, 1nat,
{
    if text[at] == '"' {
        let letters = Seq::<Letter>::empty();
        assert(letters_text(letters) + seq!['"'] =~= seq!['"']);
        lemma_stands_char(text, at, '"');
        assert(letters_mean(letters) =~= seq![]);
        letters
    } else if text[at] == '\\' {
        let letter = lemma_was_escape(text, at);
        lemma_letters_behind(text, at, letter)
    } else {
        lemma_stands_char(text, at, text[at]);
        lemma_letters_behind(text, at, Letter::Plain(text[at]))
    }
}

proof fn lemma_letters_behind(text: Seq<char>, at: int, letter: Letter) -> (letters: Seq<Letter>)
    requires
        0 <= at,
        is_letter(letter),
        stands(text, at, letter_text(letter)),
        json::string_at(text, at + letter_text(letter).len()) is Some,
    ensures
        are_letters(letters),
        stands(text, at, letters_text(letters) + seq!['"']),
        ({
            let (rest, end) = json::string_at(text, at + letter_text(letter).len())->0;
            &&& letters_mean(letters) == seq![letter_means(letter)] + rest
            &&& end == at + letters_text(letters).len() + 1
        }),
    decreases text.len() - at, 0nat,
{
    let part = letter_text(letter);
    assert(part.len() != 0);
    let rest = lemma_were_letters(text, at + part.len());
    lemma_one_more_letter(letter, rest);
    let letters = seq![letter] + rest;
    assert(letters_text(letters) + seq!['"'] =~= part + (letters_text(rest) + seq!['"']));
    lemma_stands_in_two(text, at, part, letters_text(rest) + seq!['"']);
    letters
}

proof fn lemma_was_whole(text: Seq<char>, at: int)
    requires
        0 <= at,
        json::integer_end(text, at) is Some,
    ensures
        ({
            let end = json::integer_end(text, at)->0;
            let whole = text.subrange(at, end);
            &&& at < end <= text.len()
            &&& is_digits(whole)
            &&& whole.len() == 1 || (whole.len() > 1 && whole[0] != '0')
        }),
{
    lemma_were_digits(text, at);
    json::lemma_digits_end(text, at);
    let end = json::integer_end(text, at)->0;
    let whole = text.subrange(at, end);
    assert(whole[0] == text[at]);
}

proof fn lemma_was_fraction(text: Seq<char>, at: int) -> (fraction: Option<Seq<char>>)
    requires
        0 <= at <= text.len(),
        json::fraction_end(text, at) is Some,
    ensures
        at <= json::fraction_end(text, at)->0 <= text.len(),
        fraction matches Some(digits) ==> digits.len() != 0 && is_digits(digits),
        text.subrange(at, json::fraction_end(text, at)->0) == match fraction {
            Some(digits) => seq!['.'] + digits,
            None => seq![],
        },
{
    let end = json::fraction_end(text, at)->0;
    if at < text.len() && text[at] == '.' {
        lemma_were_digits(text, at + 1);
        assert(text.subrange(at, end) =~= seq!['.'] + text.subrange(at + 1, end));
        Some(text.subrange(at + 1, end))
    } else {
        assert(text.subrange(at, end) =~= seq![]);
        None
    }
}

proof fn lemma_was_exponent(text: Seq<char>, at: int) -> (exponent: Option<(Seq<char>, Seq<char>)>)
    requires
        0 <= at <= text.len(),
        json::exponent_end(text, at) is Some,
    ensures
        at <= json::exponent_end(text, at)->0 <= text.len(),
        exponent matches Some((mark, digits)) ==> {
            &&& digits.len() != 0 && is_digits(digits)
            &&& mark.len() == 1 || (mark.len() == 2 && (mark[1] == '+' || mark[1] == '-'))
            &&& mark[0] == 'e' || mark[0] == 'E'
        },
        text.subrange(at, json::exponent_end(text, at)->0) == match exponent {
            Some((mark, digits)) => mark + digits,
            None => seq![],
        },
{
    let end = json::exponent_end(text, at)->0;
    if at < text.len() && (text[at] == 'e' || text[at] == 'E') {
        let from = if at + 1 < text.len() && (text[at + 1] == '+' || text[at + 1] == '-') {
            at + 2
        } else {
            at + 1
        };
        lemma_were_digits(text, from);
        let mark = text.subrange(at, from);
        assert(text.subrange(at, end) =~= mark + text.subrange(from, end));
        assert(mark[0] == text[at]);
        Some((mark, text.subrange(from, end)))
    } else {
        assert(text.subrange(at, end) =~= seq![]);
        None
    }
}

#[verifier::rlimit(40)]
proof fn lemma_was_numeral(text: Seq<char>, at: int) -> (numeral: Numeral)
    requires
        0 <= at,
        json::number_end(text, at) is Some,
    ensures
        is_numeral(numeral),
        stands(text, at, numeral_text(numeral)),
        json::number_end(text, at) == Some(at + numeral_text(numeral).len()),
{
    let minus = at < text.len() && text[at] == '-';
    let a = if minus {
        at + 1
    } else {
        at
    };
    lemma_was_whole(text, a);
    let b = json::integer_end(text, a)->0;
    let whole = text.subrange(a, b);
    let fraction = lemma_was_fraction(text, b);
    let c = json::fraction_end(text, b)->0;
    let exponent = lemma_was_exponent(text, c);
    let d = json::exponent_end(text, c)->0;
    let numeral = Numeral { minus, whole, fraction, exponent };
    assert(text.subrange(at, a) =~= sign_text(numeral));
    assert(text.subrange(at, d) =~= text.subrange(at, a) + whole + text.subrange(b, c)
        + text.subrange(c, d));
    numeral
}

#[verifier::rlimit(40)]
proof fn lemma_was_value(text: Seq<char>, at: int) -> (value: Spelling)
    requires
        json::value_at(text, at) is Some,
    ensures
        is_spelling(value),
        stands(text, at, spelled(value)),
        json::value_at(text, at) == Some((means(value), at + spelled(value).len())),
    decreases text.len() - at, 0nat,
{
    let c = text[at];
    if c == '"' {
        let letters = lemma_were_letters(text, at + 1);
        let value = Spelling::Text(letters);
        assert(spelled(value) =~= seq!['"'] + (letters_text(letters) + seq!['"']));
        lemma_stands_char(text, at, '"');
        lemma_stands_in_two(text, at, seq!['"'], letters_text(letters) + seq!['"']);
        value
    } else if c == '[' {
        lemma_was_blank(text, at + 1);
        let next = json::filler_end(text, at + 1);
        let blank = text.subrange(at + 1, next);
        lemma_stands_char(text, at, '[');
        if next < text.len() && text[next] == ']' {
            let value = Spelling::NoItems(blank);
            assert(text.subrange(at, next + 1) =~= spelled(value));
            value
        } else {
            let items = lemma_were_items(text, at + 1);
            let value = Spelling::Array(items);
            lemma_stands_in_two(text, at, seq!['['], items_text(items));
            value
        }
    } else if c == '{' {
        lemma_was_blank(text, at + 1);
        let next = json::filler_end(text, at + 1);
        let blank = text.subrange(at + 1, next);
        lemma_stands_char(text, at, '{');
        if next < text.len() && text[next] == '}' {
            let value = Spelling::NoMembers(blank);
            assert(text.subrange(at, next + 1) =~= spelled(value));
            value
        } else {
            let fields = lemma_were_fields(text, at + 1);
            let value = Spelling::Object(fields);
            lemma_stands_in_two(text, at, seq!['{'], fields_text(fields));
            value
        }
    } else if c == 'n' {
        Spelling::Null
    } else if c == 't' {
        Spelling::Bool(true)
    } else if c == 'f' {
        Spelling::Bool(false)
    } else {
        let numeral = lemma_was_numeral(text, at);
        assert(text.subrange(at, at + numeral_text(numeral).len()) == numeral_text(numeral));
        Spelling::Number(numeral)
    }
}

#[verifier::rlimit(40)]
proof fn lemma_were_items(text: Seq<char>, at: int) -> (items: Seq<Item>)
    requires
        0 <= at <= text.len(),
        json::items_at(text, json::filler_end(text, at)) is Some,
    ensures
        items.len() != 0,
        are_items(items),
        stands(text, at, items_text(items)),
        json::items_at(text, json::filler_end(text, at)) == Some(
            (items_mean(items), at + items_text(items).len()),
        ),
    decreases text.len() - at, 1nat,
{
    lemma_was_blank(text, at);
    let start = json::filler_end(text, at);
    let before = text.subrange(at, start);
    json::lemma_value_end(text, start);
    let value = lemma_was_value(text, start);
    let end = start + spelled(value).len();
    lemma_was_blank(text, end);
    let next = json::filler_end(text, end);
    let after = text.subrange(end, next);
    let item = Item { before, value, after };
    if text[next] == ']' {
        let items = seq![item];
        lemma_stands_char(text, next, ']');
        let rest = items.skip(1);
        assert(are_items(rest));
        assert(items_mean(rest) =~= Seq::<Json>::empty());
        assert(items_mean(items) =~= seq![means(value)]);
        assert(items_text(items) =~= before + (spelled(value) + (after + seq![']'])));
        lemma_stands_in_two(text, end, after, seq![']']);
        lemma_stands_in_two(text, start, spelled(value), after + seq![']']);
        lemma_stands_in_two(text, at, before, spelled(value) + (after + seq![']']));
        items
    } else {
        lemma_stands_char(text, next, ',');
        json::lemma_filler_end(text, next + 1);
        let rest = lemma_were_items(text, next + 1);
        let items = seq![item] + rest;
        assert(items.skip(1) =~= rest);
        assert(items[0] == item);
        let tail = seq![','] + items_text(rest);
        lemma_stands_in_two(text, next, seq![','], items_text(rest));
        assert(items_text(items) =~= before + (spelled(value) + (after + tail)));
        lemma_stands_in_two(text, end, after, tail);
        lemma_stands_in_two(text, start, spelled(value), after + tail);
        lemma_stands_in_two(text, at, before, spelled(value) + (after + tail));
        items
    }
}

#[verifier::rlimit(40)]
proof fn lemma_were_fields(text: Seq<char>, at: int) -> (fields: Seq<Field>)
    requires
        0 <= at <= text.len(),
        json::members_at(text, json::filler_end(text, at)) is Some,
    ensures
        fields.len() != 0,
        are_fields(fields),
        stands(text, at, fields_text(fields)),
        json::members_at(text, json::filler_end(text, at)) == Some(
            (fields_mean(fields), at + fields_text(fields).len()),
        ),
    decreases text.len() - at, 1nat,
{
    lemma_was_blank(text, at);
    let p = json::filler_end(text, at);
    let before = text.subrange(at, p);
    lemma_stands_char(text, p, '"');
    json::lemma_string_end(text, p + 1);
    let letters = lemma_were_letters(text, p + 1);
    let name = letters_text(letters) + seq!['"'];
    let q = p + 1 + name.len();
    lemma_was_blank(text, q);
    let r = json::filler_end(text, q);
    let between = text.subrange(q, r);
    lemma_stands_char(text, r, ':');
    lemma_was_blank(text, r + 1);
    let s = json::filler_end(text, r + 1);
    let behind = text.subrange(r + 1, s);
    json::lemma_value_end(text, s);
    let value = lemma_was_value(text, s);
    let t = s + spelled(value).len();
    lemma_was_blank(text, t);
    let u = json::filler_end(text, t);
    let after = text.subrange(t, u);
    let field = Field { before, name: letters, between, behind, value, after };
    let only = text[u] == '}';
    lemma_stands_char(text, u, text[u]);
    json::lemma_filler_end(text, u + 1);
    let rest = if only {
        Seq::<Field>::empty()
    } else {
        lemma_were_fields(text, u + 1)
    };
    let fields = seq![field] + rest;
    assert(fields.skip(1) =~= rest);
    assert(fields[0] == field);
    if !only {
        lemma_stands_in_two(text, u, seq![','], fields_text(rest));
    }
    let end = if only {
        seq!['}']
    } else {
        seq![','] + fields_text(rest)
    };
    assert(stands(text, u, end));
    lemma_field_stands(text, at, field, end);
    assert(fields_text(fields) =~= field_text(field) + end);
    assert(are_fields(rest));
    if only {
        assert(fields_mean(rest) =~= Seq::<(Seq<char>, Json)>::empty());
        assert(fields_mean(fields) =~= seq![(letters_mean(letters), means(value))]);
    }
    fields
}

/// How `field` is written.
spec fn field_text(field: Field) -> Seq<char> {
    field.before + seq!['"'] + letters_text(field.name) + seq!['"'] + field.between + seq![':']
        + field.behind + spelled(field.value) + field.after
}

#[verifier::rlimit(40)]
proof fn lemma_field_stands(text: Seq<char>, at: int, field: Field, end: Seq<char>)
    requires
        ({
            let p = at + field.before.len();
            let q = p + 1 + letters_text(field.name).len() + 1;
            let r = q + field.between.len();
            let s = r + 1 + field.behind.len();
            let t = s + spelled(field.value).len();
            let u = t + field.after.len();
            &&& stands(text, at, field.before)
            &&& stands(text, p, seq!['"'])
            &&& stands(text, p + 1, letters_text(field.name) + seq!['"'])
            &&& stands(text, q, field.between)
            &&& stands(text, r, seq![':'])
            &&& stands(text, r + 1, field.behind)
            &&& stands(text, s, spelled(field.value))
            &&& stands(text, t, field.after)
            &&& stands(text, u, end)
        }),
    ensures
        stands(text, at, field_text(field) + end),
{
    let name = letters_text(field.name) + seq!['"'];
    let p = at + field.before.len();
    let q = p + 1 + name.len();
    let r = q + field.between.len();
    let s = r + 1 + field.behind.len();
    let t = s + spelled(field.value).len();
    let e = field.after + end;
    let d = spelled(field.value) + e;
    let c = seq![':'] + (field.behind + d);
    let b = field.between + c;
    let a = seq!['"'] + (name + b);
    lemma_stands_in_two(text, t, field.after, end);
    lemma_stands_in_two(text, s, spelled(field.value), e);
    lemma_stands_in_two(text, r + 1, field.behind, d);
    lemma_stands_in_two(text, r, seq![':'], field.behind + d);
    lemma_stands_in_two(text, q, field.between, c);
    lemma_stands_in_two(text, p + 1, name, b);
    lemma_stands_in_two(text, p, seq!['"'], name + b);
    lemma_stands_in_two(text, at, field.before, a);
    assert(field_text(field) + end =~= field.before + a);
}

/// Nothing else is read as a value: whatever is, is a spelling of it, with nothing
/// but white space around it.
pub proof fn law_only_spellings_are_read(text: Seq<char>)
    requires
        json::parsed(text) is Some,
    ensures
        exists|before: Seq<char>, value: Spelling, after: Seq<char>|
            #![trigger before + spelled(value) + after]
            is_blank(before) && is_spelling(value) && is_blank(after) && text == before + spelled(
                value,
            ) + after && json::parsed(text) == Some(means(value)),
{
    lemma_was_blank(text, 0);
    let start = json::filler_end(text, 0);
    let before = text.subrange(0, start);
    let value = lemma_was_value(text, start);
    let end = start + spelled(value).len();
    lemma_was_blank(text, end);
    let after = text.subrange(end, text.len() as int);
    assert(text =~= before + spelled(value) + after);
}

// ---------------------------------------------------------------------------
// Looking inside.
// ---------------------------------------------------------------------------

/// What is found along a path of names: of each object on the way the first member
/// of that name, and at its end a string. If one of them is not there, nothing is.
pub proof fn law_what_is_found_along_a_path(
    fields: Seq<(Seq<char>, Json)>,
    at: int,
    path: Seq<Seq<char>>,
    text: Seq<char>,
)
    ensures
        json::text_at(Json::Text(text), seq![]) == Some(text),
        json::text_at(Json::Text(text), path) is Some ==> path.len() == 0,
        json::text_at(Json::Object(fields), seq![]) is None,
        json::text_at(Json::Null, path) is None,
        path.len() != 0 && 0 <= at < fields.len() && fields[at].0 == path[0] && (forall|i: int|
            0 <= i < at ==> (#[trigger] fields[i]).0 != path[0]) ==> json::text_at(
            Json::Object(fields),
            path,
        ) == json::text_at(fields[at].1, path.skip(1)),
        path.len() != 0 && (forall|i: int|
            0 <= i < fields.len() ==> (#[trigger] fields[i]).0 != path[0]) ==> json::text_at(
            Json::Object(fields),
            path,
        ) is None,
{
    if path.len() != 0 {
        lemma_field(fields, path[0], at);
    }
}

proof fn lemma_field(fields: Seq<(Seq<char>, Json)>, name: Seq<char>, at: int)
    ensures
        0 <= at < fields.len() && fields[at].0 == name && (forall|i: int|
            0 <= i < at ==> (#[trigger] fields[i]).0 != name) ==> json::field(fields, name) == Some(
            fields[at].1,
        ),
        (forall|i: int| 0 <= i < fields.len() ==> (#[trigger] fields[i]).0 != name) ==> json::field(
            fields,
            name,
        ) is None,
    decreases fields.len(),
{
    if fields.len() != 0 {
        let rest = fields.skip(1);
        lemma_field(rest, name, at - 1);
        assert forall|i: int| 0 <= i < rest.len() implies #[trigger] rest[i] == fields[i + 1] by {}
        if forall|i: int| 0 <= i < at ==> (#[trigger] fields[i]).0 != name {
            assert forall|i: int| 0 <= i < at - 1 && i < rest.len() implies (
            #[trigger] rest[i]).0 != name by {
                assert(fields[i + 1].0 != name);
            }
        }
        if forall|i: int| 0 <= i < fields.len() ==> (#[trigger] fields[i]).0 != name {
            assert forall|i: int| 0 <= i < rest.len() implies (#[trigger] rest[i]).0 != name by {
                assert(fields[i + 1].0 != name);
            }
            assert(fields[0].0 != name);
        }
    }
}

} // verus!
