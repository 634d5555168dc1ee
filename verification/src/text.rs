//! Building text: decimal numbers, padding, and pieces joined by a separator.

use vstd::prelude::*;
use vstd::string::*;

verus! {

/// Two string slices are equal exactly when they hold the same characters.
pub assume_specification[ <str as PartialEq>::eq ](a: &str, b: &str) -> (r: bool)
    ensures
        r == (a@ == b@),
;

/// The ten decimal digits, in order.
pub open spec fn decimal_digits() -> Seq<char> {
    seq!['0', '1', '2', '3', '4', '5', '6', '7', '8', '9']
}

/// `n` in decimal, without leading zeros.
pub open spec fn decimal(n: nat) -> Seq<char>
    decreases n,
{
    if n < 10 {
        seq![decimal_digits()[n as int]]
    } else {
        decimal(n / 10).push(decimal_digits()[(n % 10) as int])
    }
}

/// `n` in decimal, with a minus sign in front where it is negative.
pub open spec fn signed_decimal(n: int) -> Seq<char> {
    if n < 0 {
        seq!['-'] + decimal((-n) as nat)
    } else {
        decimal(n as nat)
    }
}

/// `true` or `false`, spelled out.
pub open spec fn bool_text(b: bool) -> Seq<char> {
    if b {
        "true"@
    } else {
        "false"@
    }
}

/// `n` spaces.
pub open spec fn spaces(n: nat) -> Seq<char> {
    Seq::new(n, |i: int| ' ')
}

/// `text` centred in a column of `width` characters: padded with spaces on
/// both sides, the odd space going to the right. Text that fills the column
/// stays as it is.
pub open spec fn centered(text: Seq<char>, width: nat) -> Seq<char> {
    if text.len() >= width {
        text
    } else {
        let pad = (width - text.len()) as nat;
        spaces(pad / 2) + text + spaces((pad - pad / 2) as nat)
    }
}

/// The pieces one after the other, with `sep` between each two.
pub open spec fn join(parts: Seq<Seq<char>>, sep: Seq<char>) -> Seq<char>
    decreases parts.len(),
{
    if parts.len() == 0 {
        Seq::empty()
    } else if parts.len() == 1 {
        parts[0]
    } else {
        join(parts.drop_last(), sep) + sep + parts.last()
    }
}

/// Joining one piece more puts the separator and the piece at the end, but no
/// separator before the very first piece.
pub proof fn lemma_join_push(parts: Seq<Seq<char>>, sep: Seq<char>, piece: Seq<char>)
    ensures
        join(parts.push(piece), sep) == if parts.len() == 0 {
            piece
        } else {
            join(parts, sep) + sep + piece
        },
{
    assert(parts.push(piece).drop_last() =~= parts);
}

/// Seen from the front, a join is its first piece and then, where more
/// follow, the separator and the join of the rest.
pub proof fn lemma_join_front(parts: Seq<Seq<char>>, sep: Seq<char>)
    requires
        parts.len() > 0,
    ensures
        join(parts, sep) == if parts.len() == 1 {
            parts[0]
        } else {
            parts[0] + sep + join(parts.skip(1), sep)
        },
    decreases parts.len(),
{
    if parts.len() == 2 {
        assert(join(parts.drop_last(), sep) == parts[0]);
        assert(join(parts.skip(1), sep) == parts[1]);
    } else if parts.len() > 2 {
        let front = parts.drop_last();
        let rest = parts.skip(1);
        lemma_join_front(front, sep);
        assert(rest.drop_last() =~= front.skip(1));
        assert(join(rest, sep) == join(front.skip(1), sep) + sep + parts.last());
        assert(join(parts, sep) =~= parts[0] + sep + join(rest, sep));
    }
}

/// The text that the `{:?}` format writes for a string: the string between
/// quotes, with the characters escaped that the standard library escapes
/// there.
pub uninterp spec fn str_debug_text(s: Seq<char>) -> Seq<char>;

/// `<str as std::fmt::Debug>::fmt`, through `format!` with `{:?}`. What it
/// writes is a function of the characters alone.
#[verifier::external_body]
pub(crate) fn debug_quoted(s: &str) -> (r: String)
    ensures
        r@ == str_debug_text(s@),
{
    format!("{:?}", s)
}

/// The one-character text of a decimal digit.
fn digit_text(d: u64) -> (r: &'static str)
    requires
        d < 10,
    ensures
        r@ == seq![decimal_digits()[d as int]],
{
    proof {
        reveal_strlit("0");
        reveal_strlit("1");
        reveal_strlit("2");
        reveal_strlit("3");
        reveal_strlit("4");
        reveal_strlit("5");
        reveal_strlit("6");
        reveal_strlit("7");
        reveal_strlit("8");
        reveal_strlit("9");
    }
    let r = if d == 0 {
        "0"
    } else if d == 1 {
        "1"
    } else if d == 2 {
        "2"
    } else if d == 3 {
        "3"
    } else if d == 4 {
        "4"
    } else if d == 5 {
        "5"
    } else if d == 6 {
        "6"
    } else if d == 7 {
        "7"
    } else if d == 8 {
        "8"
    } else {
        "9"
    };
    assert(r@ =~= seq![decimal_digits()[d as int]]);
    r
}

/// Appends `n` in decimal to `buf`.
pub fn write_u64(buf: &mut String, n: u64)
    ensures
        final(buf)@ == old(buf)@ + decimal(n as nat),
    decreases n,
{
    if n >= 10 {
        write_u64(buf, n / 10);
    }
    buf.append(digit_text(n % 10));
    assert(buf@ =~= old(buf)@ + decimal(n as nat));
}

/// Appends `n` in decimal to `buf`, with its sign where it is negative.
pub fn write_i64(buf: &mut String, n: i64)
    ensures
        final(buf)@ == old(buf)@ + signed_decimal(n as int),
{
    if n < 0 {
        proof {
            reveal_strlit("-");
        }
        buf.append("-");
        let magnitude: u64 = (-(n + 1)) as u64 + 1;
        write_u64(buf, magnitude);
        assert(buf@ =~= old(buf)@ + signed_decimal(n as int));
    } else {
        write_u64(buf, n as u64);
    }
}

/// Appends `true` or `false` to `buf`.
pub fn write_bool(buf: &mut String, b: bool)
    ensures
        final(buf)@ == old(buf)@ + bool_text(b),
{
    if b {
        buf.append("true");
    } else {
        buf.append("false");
    }
}

/// Appends `n` spaces to `buf`.
pub fn write_spaces(buf: &mut String, n: usize)
    ensures
        final(buf)@ == old(buf)@ + spaces(n as nat),
{
    let mut i: usize = 0;
    while i < n
        invariant
            i <= n,
            buf@ == old(buf)@ + spaces(i as nat),
        decreases n - i,
    {
        proof {
            reveal_strlit(" ");
        }
        buf.append(" ");
        i = i + 1;
        assert(buf@ =~= old(buf)@ + spaces(i as nat));
    }
    assert(buf@ =~= old(buf)@ + spaces(n as nat));
}

/// Appends `text` to `buf`, centred in a column of `width` characters.
pub fn write_centered(buf: &mut String, text: &str, width: usize)
    ensures
        final(buf)@ == old(buf)@ + centered(text@, width as nat),
{
    let len = text.unicode_len();
    if len >= width {
        buf.append(text);
    } else {
        let pad = width - len;
        let left = pad / 2;
        write_spaces(buf, left);
        buf.append(text);
        write_spaces(buf, pad - left);
        assert(buf@ =~= old(buf)@ + centered(text@, width as nat));
    }
}

/// Whether no character of `s` is a control character below U+0020, so that
/// `s` stays on the line it is written to.
pub open spec fn is_single_line(s: Seq<char>) -> bool {
    forall|i: int| 0 <= i < s.len() ==> (#[trigger] s[i]) as u32 >= 0x20
}

/// Text that holds no control character stays so when put together.
pub proof fn lemma_join_stays_on_line(parts: Seq<Seq<char>>, sep: Seq<char>)
    requires
        forall|i: int| 0 <= i < parts.len() ==> is_single_line(#[trigger] parts[i]),
        is_single_line(sep),
    ensures
        is_single_line(join(parts, sep)),
    decreases parts.len(),
{
    if parts.len() > 1 {
        lemma_join_stays_on_line(parts.drop_last(), sep);
    }
}

/// A number in decimal stays on its line.
pub proof fn lemma_decimal_stays_on_line(n: nat)
    ensures
        is_single_line(decimal(n)),
        is_single_line(signed_decimal(n as int)),
        is_single_line(signed_decimal(-(n as int))),
    decreases n,
{
    if n >= 10 {
        lemma_decimal_stays_on_line(n / 10);
    }
}

/// Reads `word` from the front of `text`: what follows it, where `text`
/// starts with it.
pub open spec fn read_word(text: Seq<char>, word: Seq<char>) -> Option<Seq<char>> {
    if word.is_prefix_of(text) {
        Some(text.skip(word.len() as int))
    } else {
        None
    }
}

/// A word reads back from the front of what it was put in front of.
pub proof fn lemma_read_word(word: Seq<char>, rest: Seq<char>)
    ensures
        read_word(word + rest, word) == Some(rest),
{
    assert((word + rest).subrange(0, word.len() as int) =~= word);
    assert((word + rest).skip(word.len() as int) =~= rest);
}

/// Pieces put together one after the other are the first piece and the
/// rest put together.
pub proof fn lemma_regroup(a: Seq<char>, b: Seq<char>, c: Seq<char>, d: Seq<char>, e: Seq<char>)
    ensures
        a + b + c + d + e == a + (b + (c + (d + e))),
{
    assert(a + b + c + d + e =~= a + (b + (c + (d + e))));
}

/// Pieces put together and something put behind them are the first piece
/// and the rest put together, the last of it with what was put behind.
pub proof fn lemma_regroup_tail(
    a: Seq<char>,
    b: Seq<char>,
    c: Seq<char>,
    d: Seq<char>,
    e: Seq<char>,
    tail: Seq<char>,
)
    ensures
        a + (b + (c + (d + e))) + tail == a + (b + (c + (d + (e + tail)))),
{
    assert(a + (b + (c + (d + e))) + tail =~= a + (b + (c + (d + (e + tail)))));
}

} // verus!
