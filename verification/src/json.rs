//! JSON text: how a string is written as a JSON string literal, and how such
//! a literal is read back.

use vstd::prelude::*;
use vstd::string::*;
use crate::text::{is_single_line, join};

verus! {

/// The sixteen lower-case hexadecimal digits, in order.
pub open spec fn hex_digits() -> Seq<char> {
    seq!['0', '1', '2', '3', '4', '5', '6', '7', '8', '9', 'a', 'b', 'c', 'd', 'e', 'f']
}

/// How one character stands inside a JSON string literal: the quote and the
/// backslash behind a backslash, the five control characters that have a
/// letter behind a backslash, every other character below U+0020 as `\u00`
/// and two hexadecimal digits, and any other character as itself.
pub open spec fn json_escape_char(c: char) -> Seq<char> {
    if c == '"' {
        seq!['\\', '"']
    } else if c == '\\' {
        seq!['\\', '\\']
    } else if c == '\u{08}' {
        seq!['\\', 'b']
    } else if c == '\u{09}' {
        seq!['\\', 't']
    } else if c == '\u{0a}' {
        seq!['\\', 'n']
    } else if c == '\u{0c}' {
        seq!['\\', 'f']
    } else if c == '\u{0d}' {
        seq!['\\', 'r']
    } else if (c as u32) < 0x20 {
        seq![
            '\\',
            'u',
            '0',
            '0',
            hex_digits()[(c as u32 / 16) as int],
            hex_digits()[(c as u32 % 16) as int],
        ]
    } else {
        seq![c]
    }
}

/// The characters of `s`, each escaped, one after the other.
pub open spec fn json_escape(s: Seq<char>) -> Seq<char>
    decreases s.len(),
{
    if s.len() == 0 {
        Seq::empty()
    } else {
        json_escape_char(s[0]) + json_escape(s.skip(1))
    }
}

/// `s` as a JSON string literal: its escaped characters between two quotes.
pub open spec fn json_quote(s: Seq<char>) -> Seq<char> {
    seq!['"'] + json_escape(s) + seq!['"']
}

/// A key and the text of a value as a member of a JSON object: the key as
/// a string literal, a colon, and the value.
pub open spec fn member_json(key: Seq<char>, value: Seq<char>) -> Seq<char> {
    json_quote(key) + ":"@ + value
}

/// A key and a text as one more member of a JSON object: a comma, and the
/// member with the text as a string literal.
pub open spec fn text_member_json(key: Seq<char>, text: Seq<char>) -> Seq<char> {
    ","@ + member_json(key, json_quote(text))
}

/// Strings as a JSON array of string literals, in their order.
pub open spec fn strings_json(items: Seq<Seq<char>>) -> Seq<char> {
    "["@ + join(items.map_values(|item: Seq<char>| json_quote(item)), ","@) + "]"@
}

/// `serde_json::to_string` on a string slice. It writes into a vector in
/// memory, so it cannot fail, and what it writes is the slice as a JSON string
/// literal: an opening quote, each character escaped as `json_escape_char`
/// says, and a closing quote.
#[verifier::external_body]
fn to_json_string(s: &str) -> (r: Option<String>)
    ensures
        r is Some,
        r.unwrap()@ == json_quote(s@),
{
    serde_json::to_string(s).ok()
}

/// Writes `s` as a JSON string literal, which reads back as `s`.
pub fn quote(s: &str) -> (r: String)
    ensures
        r@ == json_quote(s@),
        read_string(r@) == Some((s@, Seq::<char>::empty())),
{
    proof {
        lemma_read_quoted(s@, Seq::empty());
        assert(json_quote(s@) + Seq::<char>::empty() =~= json_quote(s@));
    }
    match to_json_string(s) {
        Some(t) => t,
        None => unreached(),
    }
}

/// What a hexadecimal digit is worth, in either case.
pub open spec fn hex_value(c: char) -> Option<int> {
    if '0' <= c && c <= '9' {
        Some(c as int - '0' as int)
    } else if 'a' <= c && c <= 'f' {
        Some(c as int - 'a' as int + 10)
    } else if 'A' <= c && c <= 'F' {
        Some(c as int - 'A' as int + 10)
    } else {
        None
    }
}

/// The number that four hexadecimal digits write.
pub open spec fn read_hex4(a: char, b: char, c: char, d: char) -> Option<int> {
    match (hex_value(a), hex_value(b), hex_value(c), hex_value(d)) {
        (Some(a), Some(b), Some(c), Some(d)) => Some(((a * 16 + b) * 16 + c) * 16 + d),
        _ => None,
    }
}

/// Whether `code` is the first half of a surrogate pair.
pub open spec fn is_high_surrogate(code: int) -> bool {
    0xD800 <= code < 0xDC00
}

/// Whether `code` is the second half of a surrogate pair.
pub open spec fn is_low_surrogate(code: int) -> bool {
    0xDC00 <= code < 0xE000
}

/// The character that the two halves of a surrogate pair name together.
pub open spec fn paired(high: int, low: int) -> char {
    (0x10000 + (high - 0xD800) * 0x400 + (low - 0xDC00)) as char
}

/// Reads the escape at the front of `text`, where a backslash stands: the
/// character that the escape stands for, and how many characters it takes.
/// A `\u` escape names a character by four hexadecimal digits, or by two
/// such escapes that are the halves of a surrogate pair; half a pair alone
/// names nothing.
#[verifier::opaque]
pub open spec fn read_escape(text: Seq<char>) -> Option<(char, int)> {
    if text.len() < 2 {
        None
    } else if text[1] == '"' || text[1] == '\\' || text[1] == '/' {
        Some((text[1], 2))
    } else if text[1] == 'b' {
        Some(('\u{08}', 2))
    } else if text[1] == 't' {
        Some(('\u{09}', 2))
    } else if text[1] == 'n' {
        Some(('\u{0a}', 2))
    } else if text[1] == 'f' {
        Some(('\u{0c}', 2))
    } else if text[1] == 'r' {
        Some(('\u{0d}', 2))
    } else if text[1] == 'u' && text.len() >= 6 {
        match read_hex4(text[2], text[3], text[4], text[5]) {
            None => None,
            Some(code) => if !is_high_surrogate(code) && !is_low_surrogate(code) {
                Some((code as char, 6))
            } else if is_high_surrogate(code) && text.len() >= 12 && text[6] == '\\' && text[7]
                == 'u' {
                match read_hex4(text[8], text[9], text[10], text[11]) {
                    Some(low) => if is_low_surrogate(low) {
                        Some((paired(code, low), 12))
                    } else {
                        None
                    },
                    None => None,
                }
            } else {
                None
            },
        }
    } else {
        None
    }
}

/// Reads a string literal from behind its opening quote: the string that it
/// stands for, and what follows its closing quote. A control character that
/// stands there unescaped, an escape that JSON does not have and a missing
/// closing quote leave nothing to read.
pub open spec fn read_string_body(text: Seq<char>) -> Option<(Seq<char>, Seq<char>)>
    decreases text.len(),
{
    if text.len() == 0 {
        None
    } else if text[0] == '"' {
        Some((Seq::empty(), text.skip(1)))
    } else if text[0] == '\\' {
        match read_escape(text) {
            Some((c, n)) => if 0 < n <= text.len() {
                match read_string_body(text.skip(n)) {
                    Some((s, rest)) => Some((seq![c] + s, rest)),
                    None => None,
                }
            } else {
                None
            },
            None => None,
        }
    } else if (text[0] as u32) < 0x20 {
        None
    } else {
        match read_string_body(text.skip(1)) {
            Some((s, rest)) => Some((seq![text[0]] + s, rest)),
            None => None,
        }
    }
}

/// Reads a string literal from the front of `text`: the string that it
/// stands for, and what follows it.
pub open spec fn read_string(text: Seq<char>) -> Option<(Seq<char>, Seq<char>)> {
    if text.len() > 0 && text[0] == '"' {
        read_string_body(text.skip(1))
    } else {
        None
    }
}

/// Every hexadecimal digit is worth its place among the sixteen.
pub proof fn lemma_hex_digit_value(n: int)
    requires
        0 <= n < 16,
    ensures
        hex_value(hex_digits()[n]) == Some(n),
{
}

/// An escaped character reads back as the character, and the reading stops
/// right behind it.
pub proof fn lemma_read_escaped_char(c: char, rest: Seq<char>)
    requires
        json_escape_char(c) != seq![c],
    ensures
        (json_escape_char(c) + rest)[0] == '\\',
        read_escape(json_escape_char(c) + rest) == Some((c, json_escape_char(c).len() as int)),
{
    reveal(read_escape);
    let text = json_escape_char(c) + rest;
    if c == '"' || c == '\\' || c == '\u{08}' || c == '\u{09}' || c == '\u{0a}' || c == '\u{0c}'
        || c == '\u{0d}' {
        assert(text[0] == '\\');
        assert(text[1] == json_escape_char(c)[1]);
    } else {
        assert((c as u32) < 0x20);
        let hi = (c as u32 / 16) as int;
        let lo = (c as u32 % 16) as int;
        lemma_hex_digit_value(hi);
        lemma_hex_digit_value(lo);
        assert(json_escape_char(c).len() == 6);
        assert(text[0] == '\\');
        assert(text[1] == 'u');
        assert(text[2] == '0');
        assert(text[3] == '0');
        assert(text[4] == hex_digits()[hi]);
        assert(text[5] == hex_digits()[lo]);
        assert(hex_value('0') == Some(0int));
        assert(((0 * 16 + 0) * 16 + hi) * 16 + lo == c as int);
    }
}

/// What was escaped reads back: behind the escaped characters of `s` and a
/// closing quote, the reading gives `s` and stops right behind the quote.
pub proof fn lemma_read_escaped(s: Seq<char>, rest: Seq<char>)
    ensures
        read_string_body(json_escape(s) + seq!['"'] + rest) == Some((s, rest)),
    decreases s.len(),
{
    let text = json_escape(s) + seq!['"'] + rest;
    if s.len() == 0 {
        assert(text.skip(1) =~= rest);
    } else {
        let c = s[0];
        let tail = s.skip(1);
        let after = json_escape(tail) + seq!['"'] + rest;
        lemma_read_escaped(tail, rest);
        assert(text =~= json_escape_char(c) + after);
        assert(seq![c] + tail =~= s);
        if json_escape_char(c) == seq![c] {
            assert(text[0] == c);
            assert(c != '"' && c != '\\' && (c as u32) >= 0x20);
            assert(text.skip(1) =~= after);
        } else {
            lemma_read_escaped_char(c, after);
            let n = json_escape_char(c).len() as int;
            assert(text.skip(n) =~= after);
        }
    }
}

/// A string written as a JSON string literal reads back as the same string,
/// and the reading stops right behind the literal.
pub proof fn lemma_read_quoted(s: Seq<char>, rest: Seq<char>)
    ensures
        read_string(json_quote(s) + rest) == Some((s, rest)),
{
    let text = json_quote(s) + rest;
    lemma_read_escaped(s, rest);
    assert(text[0] == '"');
    assert(text.skip(1) =~= json_escape(s) + seq!['"'] + rest);
}

/// No escaped character leaves the line.
pub proof fn lemma_escape_stays_on_line(s: Seq<char>)
    ensures
        is_single_line(json_escape(s)),
    decreases s.len(),
{
    if s.len() > 0 {
        lemma_escape_stays_on_line(s.skip(1));
        let c = s[0];
        if (c as u32) < 0x20 {
            let hi = (c as u32 / 16) as int;
            let lo = (c as u32 % 16) as int;
            assert(hex_digits()[hi] as u32 >= 0x20);
            assert(hex_digits()[lo] as u32 >= 0x20);
        }
        assert(is_single_line(json_escape_char(c)));
    }
}

/// A JSON string literal stays on its line, whatever the string holds.
pub proof fn lemma_quote_stays_on_line(s: Seq<char>)
    ensures
        is_single_line(json_quote(s)),
{
    lemma_escape_stays_on_line(s);
}

/// Appends the key of a member and its colon to `buf`.
pub fn write_key_json(buf: &mut String, key: &str)
    ensures
        final(buf)@ == old(buf)@ + json_quote(key@) + ":"@,
{
    buf.append(quote(key).as_str());
    buf.append(":");
}

/// Appends a key and a text to `buf` as one more member of a JSON object.
pub fn write_text_member_json(buf: &mut String, key: &str, text: &str)
    ensures
        final(buf)@ == old(buf)@ + text_member_json(key@, text@),
{
    buf.append(",");
    write_key_json(buf, key);
    buf.append(quote(text).as_str());
    assert(buf@ =~= old(buf)@ + text_member_json(key@, text@));
}

/// A key and a text as a member of a JSON object stay on their line.
pub proof fn lemma_text_member_json_stays_on_line(key: Seq<char>, text: Seq<char>)
    ensures
        is_single_line(text_member_json(key, text)),
{
    reveal_strlit(",");
    reveal_strlit(":");
    lemma_quote_stays_on_line(key);
    lemma_quote_stays_on_line(text);
}

} // verus!
