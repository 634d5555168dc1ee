//! The grammar of JSON: what a value is, and what of it stays true when
//! values are put together.

use vstd::prelude::*;
use vstd::string::*;
use crate::json::{
    json_quote, lemma_read_quoted, member_json, read_escape, read_string, read_string_body,
    strings_json, text_member_json,
};
use crate::text::{
    bool_text, decimal, is_single_line, join, lemma_join_front, lemma_read_word, read_word,
    signed_decimal,
};

verus! {

/// How deep the arrays and objects of a text may nest for it to be taken as
/// JSON.
pub const MAX_DEPTH: usize = 64;

/// Whether `c` is white space as JSON knows it.
pub open spec fn is_space(c: char) -> bool {
    c == ' ' || c == '\u{09}' || c == '\u{0a}' || c == '\u{0d}'
}

/// Whether `c` is a decimal digit.
pub open spec fn is_digit(c: char) -> bool {
    '0' <= c && c <= '9'
}

/// What follows the white space at the front of `text`.
pub open spec fn skip_spaces(text: Seq<char>) -> Seq<char>
    decreases text.len(),
{
    if text.len() > 0 && is_space(text[0]) {
        skip_spaces(text.skip(1))
    } else {
        text
    }
}

/// What follows the digits at the front of `text`.
pub open spec fn skip_digits(text: Seq<char>) -> Seq<char>
    decreases text.len(),
{
    if text.len() > 0 && is_digit(text[0]) {
        skip_digits(text.skip(1))
    } else {
        text
    }
}

/// Reads the integer part of a number: one digit at least, and no zero in
/// front of another digit.
pub open spec fn read_integer(text: Seq<char>) -> Option<Seq<char>> {
    let rest = skip_digits(text);
    if rest.len() == text.len() || (text[0] == '0' && rest.len() + 1 < text.len()) {
        None
    } else {
        Some(rest)
    }
}

/// Reads the fraction of a number: a point and one digit at least, or
/// nothing at all.
pub open spec fn read_fraction(text: Seq<char>) -> Option<Seq<char>> {
    if text.len() > 0 && text[0] == '.' {
        let rest = skip_digits(text.skip(1));
        if rest.len() + 1 == text.len() {
            None
        } else {
            Some(rest)
        }
    } else {
        Some(text)
    }
}

/// Reads the exponent of a number: the letter `e` in either case, a sign or
/// none, and one digit at least; or nothing at all.
pub open spec fn read_exponent(text: Seq<char>) -> Option<Seq<char>> {
    if text.len() > 0 && (text[0] == 'e' || text[0] == 'E') {
        let digits = if text.len() > 1 && (text[1] == '+' || text[1] == '-') {
            text.skip(2)
        } else {
            text.skip(1)
        };
        let rest = skip_digits(digits);
        if rest.len() == digits.len() {
            None
        } else {
            Some(rest)
        }
    } else {
        Some(text)
    }
}

/// Reads a number from the front of `text`: a minus sign or none, an integer
/// part, then a fraction or none, then an exponent or none. What follows
/// them is the result.
pub open spec fn read_number(text: Seq<char>) -> Option<Seq<char>> {
    let unsigned = if text.len() > 0 && text[0] == '-' {
        text.skip(1)
    } else {
        text
    };
    match read_integer(unsigned) {
        None => None,
        Some(a) => match read_fraction(a) {
            None => None,
            Some(b) => read_exponent(b),
        },
    }
}

/// How many characters the escape at the front of `text` takes.
pub open spec fn escape_len(text: Seq<char>) -> Option<int> {
    match read_escape(text) {
        Some((_, n)) => Some(n),
        None => None,
    }
}

/// What follows the string literal at the front of `text`.
pub open spec fn after_string(text: Seq<char>) -> Option<Seq<char>> {
    match read_string(text) {
        Some((_, rest)) => Some(rest),
        None => None,
    }
}

/// What follows the closing quote of the string literal whose opening quote
/// stands before `text`.
pub open spec fn after_string_body(text: Seq<char>) -> Option<Seq<char>> {
    match read_string_body(text) {
        Some((_, rest)) => Some(rest),
        None => None,
    }
}

/// Reads one JSON value from the front of `text`: a string, an object, an
/// array, one of the three words, or a number. Objects and arrays may nest
/// `depth` deep. What follows the value is the result.
pub open spec fn read_value(text: Seq<char>, depth: nat) -> Option<Seq<char>>
    decreases text.len(), 0nat,
{
    if text.len() == 0 {
        None
    } else if text[0] == '"' {
        after_string(text)
    } else if text[0] == '{' {
        let inner = skip_spaces(text.skip(1));
        if depth == 0 || inner.len() == 0 || inner.len() >= text.len() {
            None
        } else if inner[0] == '}' {
            Some(inner.skip(1))
        } else {
            read_members(inner, (depth - 1) as nat)
        }
    } else if text[0] == '[' {
        let inner = skip_spaces(text.skip(1));
        if depth == 0 || inner.len() == 0 || inner.len() >= text.len() {
            None
        } else if inner[0] == ']' {
            Some(inner.skip(1))
        } else {
            read_elements(inner, (depth - 1) as nat)
        }
    } else if text[0] == 't' {
        read_word(text, "true"@)
    } else if text[0] == 'f' {
        read_word(text, "false"@)
    } else if text[0] == 'n' {
        read_word(text, "null"@)
    } else {
        read_number(text)
    }
}

/// Reads the members of an object up to its closing brace: a key, a colon
/// and a value each, with commas between them and white space wherever it
/// may stand. What follows the brace is the result.
pub open spec fn read_members(text: Seq<char>, depth: nat) -> Option<Seq<char>>
    decreases text.len(), 1nat,
{
    match after_string(text) {
        None => None,
        Some(after_key) => {
            let colon = skip_spaces(after_key);
            if colon.len() == 0 || colon[0] != ':' {
                None
            } else {
                let start = skip_spaces(colon.skip(1));
                if start.len() >= text.len() {
                    None
                } else {
                    match read_value(start, depth) {
                        None => None,
                        Some(after_value) => {
                            let next = skip_spaces(after_value);
                            if next.len() == 0 {
                                None
                            } else if next[0] == '}' {
                                Some(next.skip(1))
                            } else if next[0] == ',' {
                                let more = skip_spaces(next.skip(1));
                                if more.len() < text.len() {
                                    read_members(more, depth)
                                } else {
                                    None
                                }
                            } else {
                                None
                            }
                        },
                    }
                }
            }
        },
    }
}

/// Reads the elements of an array up to its closing bracket: values with
/// commas between them and white space wherever it may stand. What follows
/// the bracket is the result.
pub open spec fn read_elements(text: Seq<char>, depth: nat) -> Option<Seq<char>>
    decreases text.len(), 1nat,
{
    match read_value(text, depth) {
        None => None,
        Some(after_value) => {
            let next = skip_spaces(after_value);
            if next.len() == 0 {
                None
            } else if next[0] == ']' {
                Some(next.skip(1))
            } else if next[0] == ',' {
                let more = skip_spaces(next.skip(1));
                if more.len() < text.len() {
                    read_elements(more, depth)
                } else {
                    None
                }
            } else {
                None
            }
        },
    }
}

/// Whether `s` is a number as JSON writes it, and nothing else.
pub open spec fn is_json_number(s: Seq<char>) -> bool {
    read_number(s) matches Some(rest) && rest.len() == 0
}

/// Whether a text may stand in a JSON line as it is: it is one JSON object
/// from its first character to its last, nests no deeper than `MAX_DEPTH`,
/// and holds no control character.
pub open spec fn is_inline_object(text: Seq<char>) -> bool {
    &&& text.len() > 0
    &&& text[0] == '{'
    &&& read_value(text, MAX_DEPTH as nat) matches Some(rest) && rest.len() == 0
    &&& is_single_line(text)
}

/// What follows the digits at the front of a text is the end of the text,
/// and only digits stand before it.
pub proof fn lemma_skip_digits(text: Seq<char>)
    ensures
        skip_digits(text).len() <= text.len(),
        skip_digits(text) == text.skip(text.len() - skip_digits(text).len()),
        forall|k: int|
            0 <= k < text.len() - skip_digits(text).len() ==> is_digit(#[trigger] text[k]),
        skip_digits(text).len() > 0 ==> !is_digit(skip_digits(text)[0]),
    decreases text.len(),
{
    if text.len() > 0 && is_digit(text[0]) {
        let tail = text.skip(1);
        let rest = skip_digits(tail);
        lemma_skip_digits(tail);
        assert(tail.skip(tail.len() - rest.len()) =~= text.skip(text.len() - rest.len()));
        assert forall|k: int| 0 <= k < text.len() - rest.len() implies is_digit(
            #[trigger] text[k],
        ) by {
            if k > 0 {
                assert(tail[k - 1] == text[k]);
            }
        }
    } else {
        assert(text.skip(0) =~= text);
    }
}

/// A text stays on its line where its first `n` characters are no control
/// characters and what follows them stays on its line.
pub proof fn lemma_single_line_from(text: Seq<char>, n: int)
    requires
        0 <= n <= text.len(),
        forall|k: int| 0 <= k < n ==> (#[trigger] text[k]) as u32 >= 0x20,
        is_single_line(text.skip(n)),
    ensures
        is_single_line(text),
{
    assert forall|i: int| 0 <= i < text.len() implies (#[trigger] text[i]) as u32 >= 0x20 by {
        if i >= n {
            assert(text.skip(n)[i - n] == text[i]);
        }
    }
}

/// A number and what follows it stay on their line where what follows it
/// does: a number holds digits, signs, a point and the letter of the
/// exponent.
pub proof fn lemma_number_keeps_line(text: Seq<char>)
    requires
        read_number(text) matches Some(rest) && is_single_line(rest),
    ensures
        is_single_line(text),
{
    let unsigned = if text.len() > 0 && text[0] == '-' {
        text.skip(1)
    } else {
        text
    };
    let a = read_integer(unsigned)->0;
    let b = read_fraction(a)->0;
    let c = read_exponent(b)->0;
    if b.len() > 0 && (b[0] == 'e' || b[0] == 'E') {
        let signed = b.len() > 1 && (b[1] == '+' || b[1] == '-');
        let digits = if signed {
            b.skip(2)
        } else {
            b.skip(1)
        };
        lemma_skip_digits(digits);
        lemma_single_line_from(digits, digits.len() - c.len());
        lemma_single_line_from(
            b,
            if signed {
                2
            } else {
                1
            },
        );
    }
    if a.len() > 0 && a[0] == '.' {
        lemma_skip_digits(a.skip(1));
        lemma_single_line_from(a.skip(1), a.len() - 1 - b.len());
        lemma_single_line_from(a, 1);
    }
    lemma_skip_digits(unsigned);
    lemma_single_line_from(unsigned, unsigned.len() - a.len());
    if text.len() > 0 && text[0] == '-' {
        lemma_single_line_from(text, 1);
    }
}

/// A JSON number stays on its line.
pub proof fn lemma_number_stays_on_line(s: Seq<char>)
    requires
        is_json_number(s),
    ensures
        is_single_line(s),
{
    lemma_number_keeps_line(s);
}

/// White space is skipped alike whatever follows the text, where the
/// skipping stops within the text or what follows begins with no white
/// space.
pub proof fn lemma_skip_spaces_append(t: Seq<char>, x: Seq<char>)
    requires
        skip_spaces(t).len() > 0 || x.len() == 0 || !is_space(x[0]),
    ensures
        skip_spaces(t + x) == skip_spaces(t) + x,
    decreases t.len(),
{
    if t.len() > 0 && is_space(t[0]) {
        lemma_skip_spaces_append(t.skip(1), x);
        assert((t + x).skip(1) =~= t.skip(1) + x);
    } else if t.len() == 0 {
        assert(t + x =~= x);
    }
}

/// Digits are skipped alike whatever follows the text, where the skipping
/// stops within the text or what follows begins with no digit.
pub proof fn lemma_skip_digits_append(t: Seq<char>, x: Seq<char>)
    requires
        skip_digits(t).len() > 0 || x.len() == 0 || !is_digit(x[0]),
    ensures
        skip_digits(t + x) == skip_digits(t) + x,
    decreases t.len(),
{
    if t.len() > 0 && is_digit(t[0]) {
        lemma_skip_digits_append(t.skip(1), x);
        assert((t + x).skip(1) =~= t.skip(1) + x);
    } else if t.len() == 0 {
        assert(t + x =~= x);
    }
}

/// Whether a text that follows a number leaves the number as it is: it is
/// empty, or begins with nothing that a number could go on with.
pub open spec fn ends_number(x: Seq<char>) -> bool {
    x.len() == 0 || (!is_digit(x[0]) && x[0] != '.' && x[0] != 'e' && x[0] != 'E')
}

/// A number reads alike whatever follows the text, where the number ends
/// within the text or what follows leaves it as it is.
pub proof fn lemma_number_append(t: Seq<char>, x: Seq<char>)
    requires
        read_number(t) is Some,
        read_number(t)->0.len() > 0 || ends_number(x),
    ensures
        read_number(t + x) == Some(read_number(t)->0 + x),
{
    let signed = t.len() > 0 && t[0] == '-';
    let unsigned = if signed {
        t.skip(1)
    } else {
        t
    };
    let a = read_integer(unsigned)->0;
    let b = read_fraction(a)->0;
    let c = read_exponent(b)->0;
    lemma_skip_digits(unsigned);
    if a.len() > 0 && a[0] == '.' {
        lemma_skip_digits(a.skip(1));
    }
    let exponent = b.len() > 0 && (b[0] == 'e' || b[0] == 'E');
    let digits = if exponent && b.len() > 1 && (b[1] == '+' || b[1] == '-') {
        b.skip(2)
    } else {
        b.skip(1)
    };
    if exponent {
        lemma_skip_digits(digits);
    }
    assert(unsigned.len() > 0);
    let unsigned_x = if signed {
        (t + x).skip(1)
    } else {
        t + x
    };
    assert(unsigned_x =~= unsigned + x);
    lemma_skip_digits_append(unsigned, x);
    assert(read_integer(unsigned + x) == Some(a + x));
    if a.len() > 0 && a[0] == '.' {
        assert((a + x).skip(1) =~= a.skip(1) + x);
        lemma_skip_digits_append(a.skip(1), x);
    }
    assert(read_fraction(a + x) == Some(b + x));
    if exponent {
        assert(b.len() > 1);
        assert((b + x).skip(1) =~= b.skip(1) + x);
        assert((b + x).skip(2) =~= b.skip(2) + x);
        lemma_skip_digits_append(digits, x);
    }
    assert(read_exponent(b + x) == Some(c + x));
}

/// An escape reads alike whatever follows the text.
pub proof fn lemma_escape_append(t: Seq<char>, x: Seq<char>)
    requires
        read_escape(t) is Some,
    ensures
        read_escape(t + x) == read_escape(t),
        0 < escape_len(t)->0 <= t.len(),
{
    reveal(read_escape);
}

/// A string literal reads alike whatever follows the text.
pub proof fn lemma_string_body_append(t: Seq<char>, x: Seq<char>)
    requires
        after_string_body(t) is Some,
    ensures
        after_string_body(t + x) == Some(after_string_body(t)->0 + x),
    decreases t.len(),
{
    assert((t + x)[0] == t[0]);
    if t[0] == '"' {
        assert((t + x).skip(1) =~= t.skip(1) + x);
    } else if t[0] == '\\' {
        let n = escape_len(t)->0;
        lemma_escape_append(t, x);
        lemma_string_body_append(t.skip(n), x);
        assert((t + x).skip(n) =~= t.skip(n) + x);
    } else {
        lemma_string_body_append(t.skip(1), x);
        assert((t + x).skip(1) =~= t.skip(1) + x);
    }
}

/// What follows a string literal is the same with more text behind it.
pub proof fn lemma_after_string_append(t: Seq<char>, x: Seq<char>)
    requires
        after_string(t) is Some,
    ensures
        after_string(t + x) == Some(after_string(t)->0 + x),
{
    lemma_string_body_append(t.skip(1), x);
    assert((t + x).skip(1) =~= t.skip(1) + x);
}

/// A word reads alike whatever follows the text.
pub proof fn lemma_read_word_append(t: Seq<char>, x: Seq<char>, word: Seq<char>)
    requires
        read_word(t, word) is Some,
    ensures
        read_word(t + x, word) == Some(read_word(t, word)->0 + x),
{
    let n = word.len() as int;
    assert((t + x).subrange(0, n) =~= t.subrange(0, n));
    assert((t + x).skip(n) =~= t.skip(n) + x);
}

/// Whether a value that begins with `c` shows by itself where it ends: a
/// string, an object, an array or a word does, a number does not.
pub open spec fn is_delimited(c: char) -> bool {
    c == '"' || c == '{' || c == '[' || c == 't' || c == 'f' || c == 'n'
}

/// A value reads alike whatever follows the text, where something of the
/// text follows the value, or the value shows by itself where it ends.
pub proof fn lemma_value_append(t: Seq<char>, x: Seq<char>, depth: nat)
    requires
        read_value(t, depth) is Some,
        read_value(t, depth)->0.len() > 0 || is_delimited(t[0]) || ends_number(x),
    ensures
        read_value(t + x, depth) == Some(read_value(t, depth)->0 + x),
    decreases t.len(), 0nat,
{
    assert((t + x).skip(1) =~= t.skip(1) + x);
    if t[0] == '"' {
        lemma_after_string_append(t, x);
    } else if t[0] == '{' {
        let inner = skip_spaces(t.skip(1));
        lemma_skip_spaces_append(t.skip(1), x);
        if inner[0] == '}' {
            assert((inner + x).skip(1) =~= inner.skip(1) + x);
        } else {
            lemma_members_append(inner, x, (depth - 1) as nat);
        }
    } else if t[0] == '[' {
        let inner = skip_spaces(t.skip(1));
        lemma_skip_spaces_append(t.skip(1), x);
        if inner[0] == ']' {
            assert((inner + x).skip(1) =~= inner.skip(1) + x);
        } else {
            lemma_elements_append(inner, x, (depth - 1) as nat);
        }
    } else if t[0] == 't' {
        lemma_read_word_append(t, x, "true"@);
    } else if t[0] == 'f' {
        lemma_read_word_append(t, x, "false"@);
    } else if t[0] == 'n' {
        lemma_read_word_append(t, x, "null"@);
    } else {
        lemma_number_append(t, x);
    }
}

/// What follows the white space of a text is no longer than the text.
pub proof fn lemma_skip_spaces_len(t: Seq<char>)
    ensures
        skip_spaces(t).len() <= t.len(),
    decreases t.len(),
{
    if t.len() > 0 && is_space(t[0]) {
        lemma_skip_spaces_len(t.skip(1));
    }
}

/// The members of an object read alike whatever follows the text.
pub proof fn lemma_members_append(t: Seq<char>, x: Seq<char>, depth: nat)
    requires
        read_members(t, depth) is Some,
    ensures
        read_members(t + x, depth) == Some(read_members(t, depth)->0 + x),
    decreases t.len(), 1nat,
{
    let after_key = after_string(t)->0;
    let colon = skip_spaces(after_key);
    let start = skip_spaces(colon.skip(1));
    let after_value = read_value(start, depth)->0;
    let next = skip_spaces(after_value);
    lemma_after_string_append(t, x);
    lemma_skip_spaces_append(after_key, x);
    assert((colon + x).skip(1) =~= colon.skip(1) + x);
    lemma_skip_spaces_append(colon.skip(1), x);
    lemma_skip_spaces_len(after_value);
    lemma_value_append(start, x, depth);
    lemma_skip_spaces_append(after_value, x);
    assert((next + x).skip(1) =~= next.skip(1) + x);
    if next[0] == ',' {
        let more = skip_spaces(next.skip(1));
        assert(read_members(more, depth) is Some);
        assert(after_string(more) is Some);
        assert(more.len() > 0);
        lemma_skip_spaces_append(next.skip(1), x);
        lemma_members_append(more, x, depth);
    }
}

/// The elements of an array read alike whatever follows the text.
pub proof fn lemma_elements_append(t: Seq<char>, x: Seq<char>, depth: nat)
    requires
        read_elements(t, depth) is Some,
    ensures
        read_elements(t + x, depth) == Some(read_elements(t, depth)->0 + x),
    decreases t.len(), 1nat,
{
    let after_value = read_value(t, depth)->0;
    let next = skip_spaces(after_value);
    lemma_skip_spaces_len(after_value);
    lemma_value_append(t, x, depth);
    lemma_skip_spaces_append(after_value, x);
    assert((next + x).skip(1) =~= next.skip(1) + x);
    if next[0] == ',' {
        let more = skip_spaces(next.skip(1));
        assert(read_elements(more, depth) is Some);
        assert(read_value(more, depth) is Some);
        assert(more.len() > 0);
        lemma_skip_spaces_append(next.skip(1), x);
        lemma_elements_append(more, x, depth);
    }
}

/// Whether `tail` goes on with an object and ends it: it is the closing
/// brace with `rest` behind it, or a comma and more members up to the brace
/// with `rest` behind it.
#[verifier::opaque]
pub open spec fn closes_object(tail: Seq<char>, depth: nat, rest: Seq<char>) -> bool {
    tail.len() > 0 && ((tail[0] == '}' && tail.skip(1) == rest) || (tail[0] == ','
        && tail.len() > 1 && !is_space(tail[1]) && read_members(tail.skip(1), depth) == Some(
        rest,
    )))
}

/// Whether `value` reads as one value where `tail` follows it.
pub open spec fn reads_before(value: Seq<char>, tail: Seq<char>, depth: nat) -> bool {
    value.len() > 0 && !is_space(value[0]) && read_value(value + tail, depth) == Some(tail)
}

/// A member whose value reads as a value, in front of what goes on with the
/// object and ends it, reads as the members of the object; and with a comma
/// in front, it goes on with an object and ends it in its turn.
pub proof fn lemma_member_closes(
    key: Seq<char>,
    value: Seq<char>,
    tail: Seq<char>,
    depth: nat,
    rest: Seq<char>,
)
    requires
        reads_before(value, tail, depth),
        closes_object(tail, depth, rest),
    ensures
        read_members(member_json(key, value) + tail, depth) == Some(rest),
        closes_object(","@ + member_json(key, value) + tail, depth, rest),
{
    reveal(closes_object);
    reveal_strlit(":");
    reveal_strlit(",");
    let text = member_json(key, value) + tail;
    let after_key = ":"@ + (value + tail);
    assert(text =~= json_quote(key) + after_key);
    lemma_read_quoted(key, after_key);
    assert(after_string(text) == Some(after_key));
    assert(after_key[0] == ':');
    assert(skip_spaces(after_key) == after_key);
    assert(after_key.skip(1) =~= value + tail);
    assert((value + tail)[0] == value[0]);
    assert(skip_spaces(value + tail) == value + tail);
    assert(skip_spaces(tail) == tail);
    if tail[0] == ',' {
        assert(tail.skip(1)[0] == tail[1]);
        assert(skip_spaces(tail.skip(1)) == tail.skip(1));
    }
    assert(read_members(text, depth) == Some(rest));
    let with_comma = ","@ + member_json(key, value) + tail;
    assert(with_comma.skip(1) =~= text);
    assert(with_comma[1] == '"');
}

/// A string literal reads as a value, whatever follows it.
pub proof fn lemma_string_reads(s: Seq<char>, tail: Seq<char>, depth: nat)
    ensures
        reads_before(json_quote(s), tail, depth),
{
    lemma_read_quoted(s, tail);
    assert(json_quote(s)[0] == '"');
}

/// A text that holds digits only has nothing behind its digits.
pub proof fn lemma_skip_all_digits(t: Seq<char>)
    requires
        forall|k: int| 0 <= k < t.len() ==> is_digit(#[trigger] t[k]),
    ensures
        skip_digits(t).len() == 0,
    decreases t.len(),
{
    if t.len() > 0 {
        assert(is_digit(t[0]));
        assert forall|k: int| 0 <= k < t.skip(1).len() implies is_digit(#[trigger] t.skip(1)[k]) by {
            assert(t.skip(1)[k] == t[k + 1]);
        }
        lemma_skip_all_digits(t.skip(1));
    }
}

/// A number in decimal holds digits only, and begins with a zero only where
/// it is zero.
pub proof fn lemma_decimal_digits(n: nat)
    ensures
        decimal(n).len() > 0,
        forall|k: int| 0 <= k < decimal(n).len() ==> is_digit(#[trigger] decimal(n)[k]),
        decimal(n)[0] == '0' ==> n == 0,
        n < 10 ==> decimal(n).len() == 1,
    decreases n,
{
    if n >= 10 {
        lemma_decimal_digits(n / 10);
    }
}

/// A number in decimal, with its sign or without, is a number as JSON
/// writes it.
pub proof fn lemma_decimal_is_number(n: int)
    ensures
        is_json_number(signed_decimal(n)),
        n >= 0 ==> is_json_number(decimal(n as nat)),
{
    let digits = if n < 0 {
        decimal((-n) as nat)
    } else {
        decimal(n as nat)
    };
    let text = signed_decimal(n);
    if n < 0 {
        lemma_decimal_digits((-n) as nat);
        assert(text.skip(1) =~= digits);
    } else {
        lemma_decimal_digits(n as nat);
    }
    lemma_skip_all_digits(digits);
    assert(read_integer(digits) == Some(skip_digits(digits)));
}

/// A number reads as a value where what follows leaves it as it is.
pub proof fn lemma_number_reads(number: Seq<char>, tail: Seq<char>, depth: nat)
    requires
        is_json_number(number),
        ends_number(tail),
    ensures
        reads_before(number, tail, depth),
{
    let unsigned = if number.len() > 0 && number[0] == '-' {
        number.skip(1)
    } else {
        number
    };
    lemma_skip_digits(unsigned);
    assert(is_digit(unsigned[0]));
    lemma_number_append(number, tail);
    assert(read_number(number)->0 + tail =~= tail);
    assert((number + tail)[0] == number[0]);
}

/// The words `true` and `false` read as values, whatever follows them.
pub proof fn lemma_bool_reads(b: bool, tail: Seq<char>, depth: nat)
    ensures
        reads_before(bool_text(b), tail, depth),
{
    reveal_strlit("true");
    reveal_strlit("false");
    lemma_read_word(bool_text(b), tail);
    assert((bool_text(b) + tail)[0] == bool_text(b)[0]);
}

/// A text that may stand in a JSON line as it is reads as a value there,
/// whatever follows it.
pub proof fn lemma_object_reads(text: Seq<char>, tail: Seq<char>)
    requires
        is_inline_object(text),
    ensures
        reads_before(text, tail, MAX_DEPTH as nat),
{
    lemma_value_append(text, tail, MAX_DEPTH as nat);
    assert(read_value(text, MAX_DEPTH as nat)->0 + tail =~= tail);
}

/// String literals with commas between them and a closing bracket behind
/// them read as the elements of an array.
pub proof fn lemma_string_elements_read(items: Seq<Seq<char>>, tail: Seq<char>, depth: nat)
    requires
        items.len() > 0,
    ensures
        read_elements(
            join(items.map_values(|item: Seq<char>| json_quote(item)), ","@) + "]"@ + tail,
            depth,
        ) == Some(tail),
    decreases items.len(),
{
    let quoted = |item: Seq<char>| json_quote(item);
    let parts = items.map_values(quoted);
    let text = join(parts, ","@) + "]"@ + tail;
    reveal_strlit(",");
    reveal_strlit("]");
    lemma_join_front(parts, ","@);
    let close = "]"@ + tail;
    assert(close.skip(1) =~= tail);
    if items.len() == 1 {
        assert(text =~= json_quote(items[0]) + close);
        lemma_string_reads(items[0], close, depth);
        assert(skip_spaces(close) == close);
    } else {
        let more = join(parts.skip(1), ","@) + "]"@ + tail;
        let next = ","@ + more;
        assert(parts.skip(1) =~= items.skip(1).map_values(quoted));
        assert(text =~= json_quote(items[0]) + next);
        lemma_string_reads(items[0], next, depth);
        assert(skip_spaces(next) == next);
        assert(next.skip(1) =~= more);
        lemma_join_front(parts.skip(1), ","@);
        assert(more[0] == '"');
        assert(skip_spaces(more) == more);
        lemma_string_elements_read(items.skip(1), tail, depth);
    }
}

/// Strings as a JSON array read as a value, whatever follows it.
pub proof fn lemma_strings_read(items: Seq<Seq<char>>, tail: Seq<char>, depth: nat)
    requires
        depth > 0,
    ensures
        reads_before(strings_json(items), tail, depth),
{
    let quoted = |item: Seq<char>| json_quote(item);
    let parts = items.map_values(quoted);
    let text = strings_json(items) + tail;
    let inner = join(parts, ","@) + "]"@ + tail;
    reveal_strlit("[");
    reveal_strlit("]");
    assert(text =~= "["@ + inner);
    assert(text.skip(1) =~= inner);
    if items.len() == 0 {
        assert(inner =~= "]"@ + tail);
        assert(inner.skip(1) =~= tail);
        assert(skip_spaces(inner) == inner);
    } else {
        lemma_join_front(parts, ","@);
        assert(inner[0] == '"');
        assert(skip_spaces(inner) == inner);
        lemma_string_elements_read(items, tail, (depth - 1) as nat);
    }
}

/// A key and a text as one more member, in front of what goes on with the
/// object and ends it, go on with the object and end it in their turn.
pub proof fn lemma_text_member_closes(
    key: Seq<char>,
    text: Seq<char>,
    tail: Seq<char>,
    depth: nat,
    rest: Seq<char>,
)
    requires
        closes_object(tail, depth, rest),
    ensures
        closes_object(text_member_json(key, text) + tail, depth, rest),
{
    lemma_string_reads(text, tail, depth);
    lemma_member_closes(key, json_quote(text), tail, depth, rest);
}

} // verus!
