//! A scanner for JSON: it tells whether a text is a number or an object as
//! the grammar has them.

use vstd::prelude::*;
use vstd::string::*;
use crate::grammar::{
    after_string, after_string_body, escape_len, is_inline_object, is_json_number, read_elements,
    read_members, read_number, read_value, skip_digits, skip_spaces, MAX_DEPTH,
};
use crate::json::{hex_value, read_escape, read_hex4};
use crate::text::{is_single_line, read_word};

verus! {

/// What a scan from the index `i` of `s` has to say of a reading of the text
/// from `i` on: the index where what follows the reading starts, or nothing
/// where nothing could be read.
pub open spec fn scanned(s: Seq<char>, i: int, found: Option<usize>, read: Option<Seq<char>>) -> bool {
    match found {
        Some(j) => i <= j <= s.len() && read == Some(s.skip(j as int)),
        None => read is None,
    }
}

/// The text from an index on begins with the character at the index, and
/// goes on one index later.
pub proof fn lemma_skip_front(s: Seq<char>, i: int)
    requires
        0 <= i < s.len(),
    ensures
        s.skip(i).len() == s.len() - i,
        s.skip(i)[0] == s[i],
        s.skip(i).skip(1) == s.skip(i + 1),
{
    assert(s.skip(i).skip(1) =~= s.skip(i + 1));
}

/// To skip twice is to skip once as far.
pub proof fn lemma_skip_more(s: Seq<char>, i: int, n: int)
    requires
        0 <= i,
        0 <= n,
        i + n <= s.len(),
    ensures
        s.skip(i).skip(n) == s.skip(i + n),
        forall|k: int| 0 <= k < s.len() - i ==> #[trigger] s.skip(i)[k] == s[i + k],
{
    assert(s.skip(i).skip(n) =~= s.skip(i + n));
}

/// The characters of a string slice, one by one.
pub fn to_chars(s: &str) -> (v: Vec<char>)
    ensures
        v@ == s@,
{
    let mut v: Vec<char> = Vec::new();
    for c in it: s.chars()
        invariant
            v@ == it.seq().take(it.index() as int),
            it.seq() == s@,
    {
        v.push(c);
    }
    v
}

/// Skips white space from the index `i` on.
fn scan_spaces(v: &Vec<char>, i: usize) -> (j: usize)
    requires
        i <= v.len(),
    ensures
        i <= j <= v.len(),
        skip_spaces(v@.skip(i as int)) == v@.skip(j as int),
{
    let mut j: usize = i;
    while j < v.len() && (v[j] == ' ' || v[j] == '\u{09}' || v[j] == '\u{0a}' || v[j] == '\u{0d}')
        invariant
            i <= j <= v.len(),
            skip_spaces(v@.skip(i as int)) == skip_spaces(v@.skip(j as int)),
        decreases v.len() - j,
    {
        proof {
            lemma_skip_front(v@, j as int);
        }
        j = j + 1;
    }
    proof {
        if j < v.len() {
            lemma_skip_front(v@, j as int);
        }
    }
    j
}

/// Skips digits from the index `i` on.
fn scan_digits(v: &Vec<char>, i: usize) -> (j: usize)
    requires
        i <= v.len(),
    ensures
        i <= j <= v.len(),
        skip_digits(v@.skip(i as int)) == v@.skip(j as int),
{
    let mut j: usize = i;
    while j < v.len() && '0' <= v[j] && v[j] <= '9'
        invariant
            i <= j <= v.len(),
            skip_digits(v@.skip(i as int)) == skip_digits(v@.skip(j as int)),
        decreases v.len() - j,
    {
        proof {
            lemma_skip_front(v@, j as int);
        }
        j = j + 1;
    }
    proof {
        if j < v.len() {
            lemma_skip_front(v@, j as int);
        }
    }
    j
}

/// Scans a number from the index `i` on.
fn scan_number(v: &Vec<char>, i: usize) -> (found: Option<usize>)
    requires
        i <= v.len(),
    ensures
        scanned(v@, i as int, found, read_number(v@.skip(i as int))),
        found matches Some(j) ==> i < j,
{
    let len = v.len();
    proof {
        if i < len {
            lemma_skip_front(v@, i as int);
        }
    }
    let start: usize = if i < len && v[i] == '-' {
        i + 1
    } else {
        i
    };
    let a = scan_digits(v, start);
    proof {
        if start < len {
            lemma_skip_front(v@, start as int);
        }
        if a < len {
            lemma_skip_front(v@, a as int);
        }
    }
    if a == start || (v[start] == '0' && a > start + 1) {
        return None;
    }
    let b = if a < len && v[a] == '.' {
        let end = scan_digits(v, a + 1);
        if end == a + 1 {
            return None;
        }
        end
    } else {
        a
    };
    proof {
        if b < len {
            lemma_skip_front(v@, b as int);
            lemma_skip_more(v@, b as int, 1);
            if b + 1 < len {
                lemma_skip_more(v@, b as int, 2);
            }
        }
    }
    if b < len && (v[b] == 'e' || v[b] == 'E') {
        let from = if b + 1 < len && (v[b + 1] == '+' || v[b + 1] == '-') {
            b + 2
        } else {
            b + 1
        };
        let end = scan_digits(v, from);
        if end == from {
            return None;
        }
        Some(end)
    } else {
        Some(b)
    }
}

/// What a hexadecimal digit is worth.
fn hex_digit(c: char) -> (r: Option<u32>)
    ensures
        match r {
            Some(n) => hex_value(c) == Some(n as int) && n < 16,
            None => hex_value(c) is None,
        },
{
    if '0' <= c && c <= '9' {
        Some(c as u32 - '0' as u32)
    } else if 'a' <= c && c <= 'f' {
        Some(c as u32 - 'a' as u32 + 10)
    } else if 'A' <= c && c <= 'F' {
        Some(c as u32 - 'A' as u32 + 10)
    } else {
        None
    }
}

/// The number that the four hexadecimal digits from the index `i` on write.
fn scan_hex4(v: &Vec<char>, i: usize) -> (r: Option<u32>)
    requires
        i + 4 <= v.len(),
    ensures
        match r {
            Some(n) => read_hex4(v@[i as int], v@[i + 1], v@[i + 2], v@[i + 3]) == Some(n as int),
            None => read_hex4(v@[i as int], v@[i + 1], v@[i + 2], v@[i + 3]) is None,
        },
{
    let a = match hex_digit(v[i]) {
        Some(a) => a,
        None => {
            return None;
        },
    };
    let b = match hex_digit(v[i + 1]) {
        Some(b) => b,
        None => {
            return None;
        },
    };
    let c = match hex_digit(v[i + 2]) {
        Some(c) => c,
        None => {
            return None;
        },
    };
    let d = match hex_digit(v[i + 3]) {
        Some(d) => d,
        None => {
            return None;
        },
    };
    Some(((a * 16 + b) * 16 + c) * 16 + d)
}

/// How many characters the escape at the index `i` takes, where a backslash
/// stands.
fn scan_escape(v: &Vec<char>, i: usize) -> (found: Option<usize>)
    requires
        i < v.len(),
    ensures
        match found {
            Some(n) => i + n <= v.len() && n > 0 && escape_len(v@.skip(i as int)) == Some(
                n as int,
            ),
            None => escape_len(v@.skip(i as int)) is None,
        },
{
    let len = v.len();
    proof {
        reveal(read_escape);
        lemma_skip_more(v@, i as int, 0);
    }
    if len - i < 2 {
        return None;
    }
    let e = v[i + 1];
    if e == '"' || e == '\\' || e == '/' || e == 'b' || e == 't' || e == 'n' || e == 'f' || e
        == 'r' {
        return Some(2);
    }
    if e != 'u' || len - i < 6 {
        return None;
    }
    let code = match scan_hex4(v, i + 2) {
        Some(code) => code,
        None => {
            return None;
        },
    };
    if code < 0xD800 || code >= 0xE000 {
        return Some(6);
    }
    if code >= 0xDC00 || len - i < 12 || v[i + 6] != '\\' || v[i + 7] != 'u' {
        return None;
    }
    match scan_hex4(v, i + 8) {
        Some(low) => if 0xDC00 <= low && low < 0xE000 {
            Some(12)
        } else {
            None
        },
        None => None,
    }
}

/// Scans a string literal from the index `i` on.
fn scan_string(v: &Vec<char>, i: usize) -> (found: Option<usize>)
    requires
        i <= v.len(),
    ensures
        scanned(v@, i as int, found, after_string(v@.skip(i as int))),
        found matches Some(j) ==> i < j,
{
    let len = v.len();
    if i >= len || v[i] != '"' {
        proof {
            if i < len {
                lemma_skip_front(v@, i as int);
            }
        }
        return None;
    }
    proof {
        lemma_skip_front(v@, i as int);
    }
    let mut j: usize = i + 1;
    loop
        invariant
            len == v.len(),
            i < j <= len,
            after_string(v@.skip(i as int)) == after_string_body(v@.skip(j as int)),
        decreases len - j,
    {
        if j >= len {
            return None;
        }
        proof {
            lemma_skip_front(v@, j as int);
        }
        let c = v[j];
        if c == '"' {
            return Some(j + 1);
        } else if c == '\\' {
            match scan_escape(v, j) {
                Some(n) => {
                    proof {
                        lemma_skip_more(v@, j as int, n as int);
                    }
                    j = j + n;
                },
                None => {
                    return None;
                },
            }
        } else if (c as u32) < 0x20 {
            return None;
        } else {
            j = j + 1;
        }
    }
}

/// Tells whether the characters from the index `i` on begin with those that
/// are given.
fn begins_with(v: &Vec<char>, i: usize, word: &Vec<char>) -> (r: bool)
    requires
        i <= v.len(),
    ensures
        r == word@.is_prefix_of(v@.skip(i as int)),
{
    if word.len() > v.len() - i {
        return false;
    }
    let mut k: usize = 0;
    while k < word.len()
        invariant
            i + word.len() <= v.len(),
            k <= word.len(),
            forall|n: int| 0 <= n < k ==> word@[n] == v@[i + n],
        decreases word.len() - k,
    {
        if word[k] != v[i + k] {
            proof {
                lemma_skip_more(v@, i as int, 0);
                assert(v@.skip(i as int).subrange(0, word@.len() as int)[k as int] == v@[i + k]);
            }
            return false;
        }
        k = k + 1;
    }
    proof {
        lemma_skip_more(v@, i as int, 0);
        assert(word@ =~= v@.skip(i as int).subrange(0, word@.len() as int));
    }
    true
}

/// Scans one of the words of JSON from the index `i` on.
fn scan_word(v: &Vec<char>, i: usize, word: &str) -> (found: Option<usize>)
    requires
        i <= v.len(),
    ensures
        scanned(v@, i as int, found, read_word(v@.skip(i as int), word@)),
{
    let w = to_chars(word);
    if begins_with(v, i, &w) {
        proof {
            lemma_skip_more(v@, i as int, w@.len() as int);
        }
        Some(i + w.len())
    } else {
        None
    }
}

/// Scans one value from the index `i` on.
fn scan_value(v: &Vec<char>, i: usize, depth: usize) -> (found: Option<usize>)
    requires
        i <= v.len(),
    ensures
        scanned(v@, i as int, found, read_value(v@.skip(i as int), depth as nat)),
    decreases v.len() - i, 0nat,
{
    let len = v.len();
    if i >= len {
        return None;
    }
    proof {
        lemma_skip_front(v@, i as int);
    }
    let c = v[i];
    if c == '"' {
        scan_string(v, i)
    } else if c == '{' || c == '[' {
        let inner = scan_spaces(v, i + 1);
        if depth == 0 || inner >= len {
            return None;
        }
        proof {
            lemma_skip_front(v@, inner as int);
        }
        if c == '{' {
            if v[inner] == '}' {
                Some(inner + 1)
            } else {
                scan_members(v, inner, depth - 1)
            }
        } else {
            if v[inner] == ']' {
                Some(inner + 1)
            } else {
                scan_elements(v, inner, depth - 1)
            }
        }
    } else if c == 't' {
        scan_word(v, i, "true")
    } else if c == 'f' {
        scan_word(v, i, "false")
    } else if c == 'n' {
        scan_word(v, i, "null")
    } else {
        scan_number(v, i)
    }
}

/// Scans the members of an object from the index `i` on, up to its closing
/// brace.
fn scan_members(v: &Vec<char>, i: usize, depth: usize) -> (found: Option<usize>)
    requires
        i <= v.len(),
    ensures
        scanned(v@, i as int, found, read_members(v@.skip(i as int), depth as nat)),
    decreases v.len() - i, 1nat,
{
    let len = v.len();
    let after_key = match scan_string(v, i) {
        Some(j) => j,
        None => {
            return None;
        },
    };
    let colon = scan_spaces(v, after_key);
    if colon >= len {
        return None;
    }
    proof {
        lemma_skip_front(v@, colon as int);
    }
    if v[colon] != ':' {
        return None;
    }
    let start = scan_spaces(v, colon + 1);
    let after_value = match scan_value(v, start, depth) {
        Some(j) => j,
        None => {
            return None;
        },
    };
    let next = scan_spaces(v, after_value);
    if next >= len {
        return None;
    }
    proof {
        lemma_skip_front(v@, next as int);
    }
    if v[next] == '}' {
        Some(next + 1)
    } else if v[next] == ',' {
        let more = scan_spaces(v, next + 1);
        scan_members(v, more, depth)
    } else {
        None
    }
}

/// Scans the elements of an array from the index `i` on, up to its closing
/// bracket.
fn scan_elements(v: &Vec<char>, i: usize, depth: usize) -> (found: Option<usize>)
    requires
        i <= v.len(),
    ensures
        scanned(v@, i as int, found, read_elements(v@.skip(i as int), depth as nat)),
    decreases v.len() - i, 1nat,
{
    let len = v.len();
    let after_value = match scan_value(v, i, depth) {
        Some(j) => j,
        None => {
            return None;
        },
    };
    let next = scan_spaces(v, after_value);
    if next >= len {
        return None;
    }
    proof {
        lemma_skip_front(v@, next as int);
    }
    if v[next] == ']' {
        Some(next + 1)
    } else if v[next] == ',' {
        let more = scan_spaces(v, next + 1);
        if more > i {
            scan_elements(v, more, depth)
        } else {
            None
        }
    } else {
        None
    }
}

/// Tells whether `s` is a number as JSON writes it, and nothing else.
pub fn is_number(s: &str) -> (r: bool)
    ensures
        r == is_json_number(s@),
{
    let v = to_chars(s);
    proof {
        assert(v@.skip(0) =~= v@);
    }
    match scan_number(&v, 0) {
        Some(end) => end == v.len(),
        None => false,
    }
}

/// Tells whether no character from the index `i` on is a control character.
fn none_is_control(v: &Vec<char>) -> (r: bool)
    ensures
        r == is_single_line(v@),
{
    let mut i: usize = 0;
    while i < v.len()
        invariant
            i <= v.len(),
            forall|j: int| 0 <= j < i ==> (#[trigger] v@[j]) as u32 >= 0x20,
        decreases v.len() - i,
    {
        if (v[i] as u32) < 0x20 {
            return false;
        }
        i = i + 1;
    }
    true
}

/// Tells whether `s` may stand in a JSON line as it is.
pub fn is_object(s: &str) -> (r: bool)
    ensures
        r == is_inline_object(s@),
{
    let v = to_chars(s);
    proof {
        assert(v@.skip(0) =~= v@);
    }
    if v.len() == 0 || v[0] != '{' {
        return false;
    }
    match scan_value(&v, 0, MAX_DEPTH) {
        Some(end) => end == v.len() && none_is_control(&v),
        None => false,
    }
}

} // verus!
