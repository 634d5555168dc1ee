//! The pieces that the renderers are made of: how a value, a field, a link
//! and the preamble are written, as JSON and as text for people.

use vstd::prelude::*;
use vstd::string::*;
use crate::clock::RenderError;
use crate::event::{
    entries_view, level_text, value_text, write_value_text, Entry, EntryView, Level, Value,
    ValueView,
};
use crate::grammar::{
    closes_object, is_inline_object, is_json_number, lemma_bool_reads,
    lemma_decimal_is_number, lemma_member_closes, lemma_number_reads,
    lemma_number_stays_on_line, lemma_object_reads, lemma_string_reads, lemma_strings_read,
    lemma_text_member_closes, read_value, reads_before, skip_spaces, MAX_DEPTH,
};
use crate::json::{
    json_quote, lemma_quote_stays_on_line, lemma_text_member_json_stays_on_line, member_json,
    quote, strings_json, text_member_json, write_key_json, write_text_member_json,
};
use crate::loc_error::{CoreError, StackItem, StackItemView};
use crate::scan::{is_number, is_object};
use crate::text::{
    bool_text, centered, decimal, is_single_line, join, lemma_decimal_stays_on_line,
    lemma_join_push, lemma_join_stays_on_line, signed_decimal, write_bool, write_centered,
    write_i64, write_u64,
};

verus! {

/// The width of the column that the name of a level is centred in.
pub const LEVEL_WIDTH: usize = 5;

/// A plain value as JSON. A number is a JSON number and a truth value a JSON
/// literal. A float's text is taken as it is where it is a JSON number, and
/// is a string literal otherwise; debug text is taken as it is where it is a
/// JSON object that stays on the line, and is a string literal otherwise. A
/// string is always a string literal.
pub open spec fn value_json(value: ValueView) -> Seq<char> {
    match value {
        ValueView::Float(text) => if is_json_number(text) {
            text
        } else {
            json_quote(text)
        },
        ValueView::Signed(n) => signed_decimal(n as int),
        ValueView::Unsigned(n) => decimal(n as nat),
        ValueView::Bool(b) => bool_text(b),
        ValueView::Str(text) => json_quote(text),
        ValueView::Debug(text) => if is_inline_object(text) {
            text
        } else {
            json_quote(text)
        },
    }
}

/// An ordinary field as one more member of a JSON object.
pub open spec fn entry_json(entry: EntryView) -> Seq<char> {
    ","@ + member_json(entry.key, value_json(entry.value))
}

/// The ordinary fields as members of a JSON object, in their order.
pub open spec fn entries_json(entries: Seq<EntryView>) -> Seq<char>
    decreases entries.len(),
{
    if entries.len() == 0 {
        Seq::empty()
    } else {
        entries_json(entries.drop_last()) + entry_json(entries.last())
    }
}

/// The short form of a link: where the conversion happened and what the
/// error was turned into.
pub open spec fn link_summary(item: StackItemView) -> Seq<char> {
    item.location + " "@ + item.target
}

/// The short forms of the links of a chain, in chain order.
pub open spec fn link_summaries(links: Seq<StackItemView>) -> Seq<Seq<char>> {
    links.map_values(|item: StackItemView| link_summary(item))
}

/// The links of a chain as one more member of a JSON object: `stack`, the
/// array of their short forms.
pub open spec fn stack_member_json(items: Seq<Seq<char>>) -> Seq<char> {
    ","@ + member_json("stack"@, strings_json(items))
}

/// How every JSON line starts: the opening brace, the instant with `Z` for
/// UTC behind it, and the level.
pub open spec fn preamble_json(stamp: Seq<char>, level: Level) -> Seq<char> {
    "{"@ + member_json("timestamp"@, json_quote(stamp + "Z"@)) + text_member_json(
        "level"@,
        level_text(level),
    )
}

/// The member of a JSON line that holds the message under `key`, or nothing
/// where the event has no message.
pub open spec fn message_json(key: Seq<char>, message: Option<Seq<char>>) -> Seq<char> {
    match message {
        Some(text) => text_member_json(key, text),
        None => Seq::empty(),
    }
}

/// The text of a rendering that went well, and the error of one that did
/// not.
pub open spec fn rendering_view(r: Result<String, RenderError>) -> Result<Seq<char>, RenderError> {
    match r {
        Ok(text) => Ok(text@),
        Err(e) => Err(e),
    }
}

/// Whether `text` is one line: it ends in a line feed and holds no control
/// character before that.
pub open spec fn is_one_line(text: Seq<char>) -> bool {
    text.len() > 0 && text.last() == '\n' && is_single_line(text.drop_last())
}

/// Whether `line` is one JSON object with a line feed behind it and
/// nothing else.
pub open spec fn is_json_line(line: Seq<char>) -> bool {
    line.len() > 0 && line[0] == '{' && read_value(line, (MAX_DEPTH + 1) as nat) == Some("\n"@)
}

/// The closing brace and the line feed end the object, and leave the line
/// feed.
pub proof fn lemma_line_end_closes()
    ensures
        closes_object("}\n"@, MAX_DEPTH as nat, "\n"@),
{
    reveal(closes_object);
    reveal_strlit("}\n");
    reveal_strlit("\n");
    assert("}\n"@.skip(1) =~= "\n"@);
}

/// The name of a level in colour: an error in red, any other level in green
/// and centred in its column.
pub open spec fn colored_level(level: Level) -> Seq<char> {
    if level == Level::Error {
        "\x1b[91m"@ + level_text(level) + "\x1b[0m"@
    } else {
        "\x1b[92m"@ + centered(level_text(level), LEVEL_WIDTH as nat) + "\x1b[0m"@
    }
}

/// An ordinary field as text for people: `key=value; `.
pub open spec fn entry_pretty(entry: EntryView) -> Seq<char> {
    entry.key + "="@ + value_text(entry.value) + "; "@
}

/// The ordinary fields as text for people, in their order.
pub open spec fn entries_pretty(entries: Seq<EntryView>) -> Seq<char>
    decreases entries.len(),
{
    if entries.len() == 0 {
        Seq::empty()
    } else {
        entries_pretty(entries.drop_last()) + entry_pretty(entries.last())
    }
}

/// A link on an indented line of its own.
pub open spec fn link_pretty(item: StackItemView) -> Seq<char> {
    "\n    "@ + link_summary(item)
}

/// The links of a chain, each on an indented line of its own, in chain order.
pub open spec fn links_pretty(links: Seq<StackItemView>) -> Seq<char>
    decreases links.len(),
{
    if links.len() == 0 {
        Seq::empty()
    } else {
        links_pretty(links.drop_last()) + link_pretty(links.last())
    }
}

/// Appends a plain value to `buf` as JSON.
pub fn write_value_json(buf: &mut String, value: &Value)
    ensures
        final(buf)@ == old(buf)@ + value_json(value@),
{
    match value {
        Value::Float(text) => {
            if is_number(text.as_str()) {
                buf.append(text.as_str());
            } else {
                buf.append(quote(text.as_str()).as_str());
            }
        },
        Value::Signed(n) => write_i64(buf, *n),
        Value::Unsigned(n) => write_u64(buf, *n),
        Value::Bool(b) => write_bool(buf, *b),
        Value::Str(text) => buf.append(quote(text.as_str()).as_str()),
        Value::Debug(text) => {
            if is_object(text.as_str()) {
                buf.append(text.as_str());
            } else {
                buf.append(quote(text.as_str()).as_str());
            }
        },
    }
}

/// Appends the ordinary fields to `buf` as members of a JSON object.
pub fn write_entries_json(buf: &mut String, entries: &Vec<Entry>)
    ensures
        final(buf)@ == old(buf)@ + entries_json(entries_view(entries@)),
{
    let ghost all = entries_view(entries@);
    let mut i: usize = 0;
    while i < entries.len()
        invariant
            i <= entries.len(),
            all == entries_view(entries@),
            buf@ == old(buf)@ + entries_json(all.take(i as int)),
        decreases entries.len() - i,
    {
        buf.append(",");
        write_key_json(buf, entries[i].key.as_str());
        write_value_json(buf, &entries[i].value);
        proof {
            assert(all.take(i + 1).drop_last() =~= all.take(i as int));
            assert(buf@ =~= old(buf)@ + entries_json(all.take(i + 1)));
        }
        i = i + 1;
    }
    assert(all.take(i as int) =~= all);
}

/// The short form of a link.
pub fn link_summary_text(item: &StackItem) -> (text: String)
    ensures
        text@ == link_summary(item@),
{
    let mut text = item.location.clone();
    text.append(" ");
    text.append(item.target.as_str());
    text
}

/// Appends the links of a chain to `buf` as the member `stack` of a JSON
/// object.
pub fn write_stack_json(buf: &mut String, chain: &CoreError)
    ensures
        final(buf)@ == old(buf)@ + stack_member_json(link_summaries(chain@)),
{
    buf.append(",");
    write_key_json(buf, "stack");
    buf.append("[");
    let ghost start = buf@;
    let ghost quoted = |item: Seq<char>| json_quote(item);
    let mut i: usize = 0;
    while i < chain.backtrace.len()
        invariant
            i <= chain.backtrace.len(),
            quoted == |item: Seq<char>| json_quote(item),
            buf@ == start + join(link_summaries(chain@.take(i as int)).map_values(quoted), ","@),
        decreases chain.backtrace.len() - i,
    {
        let ghost before = link_summaries(chain@.take(i as int)).map_values(quoted);
        if i > 0 {
            buf.append(",");
        }
        let summary = link_summary_text(&chain.backtrace[i]);
        buf.append(quote(summary.as_str()).as_str());
        proof {
            let piece = json_quote(link_summary(chain@[i as int]));
            lemma_join_push(before, ","@, piece);
            assert(link_summaries(chain@.take(i + 1)).map_values(quoted) =~= before.push(piece));
            assert(buf@ =~= start + join(before.push(piece), ","@));
        }
        i = i + 1;
    }
    assert(chain@.take(i as int) =~= chain@);
    buf.append("]");
    assert(buf@ =~= old(buf)@ + stack_member_json(link_summaries(chain@)));
}

/// Appends one place to `buf` as the member `stack` of a JSON object.
pub fn write_place_json(buf: &mut String, place: &str)
    ensures
        final(buf)@ == old(buf)@ + stack_member_json(seq![place@]),
{
    buf.append(",");
    write_key_json(buf, "stack");
    buf.append("[");
    buf.append(quote(place).as_str());
    buf.append("]");
    proof {
        assert(seq![place@].map_values(|item: Seq<char>| json_quote(item)) =~= seq![
            json_quote(place@),
        ]);
        assert(buf@ =~= old(buf)@ + stack_member_json(seq![place@]));
    }
}

/// Appends the start of a JSON line to `buf`.
pub fn write_preamble_json(buf: &mut String, stamp: &str, level: Level)
    ensures
        final(buf)@ == old(buf)@ + preamble_json(stamp@, level),
{
    let mut instant = String::new();
    instant.append(stamp);
    instant.append("Z");
    assert(instant@ =~= stamp@ + "Z"@);
    buf.append("{");
    write_key_json(buf, "timestamp");
    buf.append(quote(instant.as_str()).as_str());
    write_text_member_json(buf, "level", level.as_str());
    assert(buf@ =~= old(buf)@ + preamble_json(stamp@, level));
}

/// Appends the name of a level to `buf`, in colour.
pub fn write_colored_level(buf: &mut String, level: Level)
    ensures
        final(buf)@ == old(buf)@ + colored_level(level),
{
    match level {
        Level::Error => {
            buf.append("\x1b[91m");
            buf.append(level.as_str());
        },
        _ => {
            buf.append("\x1b[92m");
            write_centered(buf, level.as_str(), LEVEL_WIDTH);
        },
    }
    buf.append("\x1b[0m");
    assert(buf@ =~= old(buf)@ + colored_level(level));
}

/// Appends the ordinary fields to `buf` as text for people.
pub fn write_entries_pretty(buf: &mut String, entries: &Vec<Entry>)
    ensures
        final(buf)@ == old(buf)@ + entries_pretty(entries_view(entries@)),
{
    let ghost all = entries_view(entries@);
    let mut i: usize = 0;
    while i < entries.len()
        invariant
            i <= entries.len(),
            all == entries_view(entries@),
            buf@ == old(buf)@ + entries_pretty(all.take(i as int)),
        decreases entries.len() - i,
    {
        buf.append(entries[i].key.as_str());
        buf.append("=");
        write_value_text(buf, &entries[i].value);
        buf.append("; ");
        proof {
            assert(all.take(i + 1).drop_last() =~= all.take(i as int));
            assert(buf@ =~= old(buf)@ + entries_pretty(all.take(i + 1)));
        }
        i = i + 1;
    }
    assert(all.take(i as int) =~= all);
}

/// Appends the links of a chain to `buf`, each on an indented line of its
/// own.
pub fn write_links_pretty(buf: &mut String, chain: &CoreError)
    ensures
        final(buf)@ == old(buf)@ + links_pretty(chain@),
{
    let mut i: usize = 0;
    while i < chain.backtrace.len()
        invariant
            i <= chain.backtrace.len(),
            buf@ == old(buf)@ + links_pretty(chain@.take(i as int)),
        decreases chain.backtrace.len() - i,
    {
        buf.append("\n    ");
        buf.append(link_summary_text(&chain.backtrace[i]).as_str());
        proof {
            assert(chain@.take(i + 1).drop_last() =~= chain@.take(i as int));
            assert(buf@ =~= old(buf)@ + links_pretty(chain@.take(i + 1)));
        }
        i = i + 1;
    }
    assert(chain@.take(i as int) =~= chain@);
}

/// A plain value as JSON stays on its line.
pub proof fn lemma_value_json_stays_on_line(value: ValueView)
    ensures
        is_single_line(value_json(value)),
{
    match value {
        ValueView::Float(text) => {
            if is_json_number(text) {
                lemma_number_stays_on_line(text);
            } else {
                lemma_quote_stays_on_line(text);
            }
        },
        ValueView::Signed(n) => {
            if n < 0 {
                lemma_decimal_stays_on_line((-n) as nat);
            } else {
                lemma_decimal_stays_on_line(n as nat);
            }
        },
        ValueView::Unsigned(n) => {
            lemma_decimal_stays_on_line(n as nat);
        },
        ValueView::Bool(b) => {
            reveal_strlit("true");
            reveal_strlit("false");
        },
        ValueView::Str(text) => {
            lemma_quote_stays_on_line(text);
        },
        ValueView::Debug(text) => {
            lemma_quote_stays_on_line(text);
        },
    }
}

/// The ordinary fields as members of a JSON object stay on their line.
pub proof fn lemma_entries_json_stay_on_line(entries: Seq<EntryView>)
    ensures
        is_single_line(entries_json(entries)),
    decreases entries.len(),
{
    if entries.len() > 0 {
        lemma_entries_json_stay_on_line(entries.drop_last());
        reveal_strlit(",");
        reveal_strlit(":");
        lemma_quote_stays_on_line(entries.last().key);
        lemma_value_json_stays_on_line(entries.last().value);
    }
}

/// Strings as the member `stack` of a JSON object stay on their line.
pub proof fn lemma_stack_json_stays_on_line(items: Seq<Seq<char>>)
    ensures
        is_single_line(stack_member_json(items)),
{
    let parts = items.map_values(|item: Seq<char>| json_quote(item));
    reveal_strlit(",");
    reveal_strlit(":");
    reveal_strlit("[");
    reveal_strlit("]");
    assert forall|i: int| 0 <= i < parts.len() implies is_single_line(#[trigger] parts[i]) by {
        lemma_quote_stays_on_line(items[i]);
    }
    lemma_join_stays_on_line(parts, ","@);
    lemma_quote_stays_on_line("stack"@);
}

/// The start of a JSON line stays on its line.
pub proof fn lemma_preamble_json_stays_on_line(stamp: Seq<char>, level: Level)
    ensures
        is_single_line(preamble_json(stamp, level)),
{
    reveal_strlit("{");
    reveal_strlit(":");
    lemma_quote_stays_on_line("timestamp"@);
    lemma_quote_stays_on_line(stamp + "Z"@);
    lemma_text_member_json_stays_on_line("level"@, level_text(level));
}

/// A plain value as JSON reads as a value where a comma or a closing brace
/// follows it.
pub proof fn lemma_value_json_reads(value: ValueView, tail: Seq<char>)
    requires
        tail.len() > 0,
        tail[0] == ',' || tail[0] == '}',
    ensures
        reads_before(value_json(value), tail, MAX_DEPTH as nat),
{
    let depth = MAX_DEPTH as nat;
    match value {
        ValueView::Float(text) => {
            if is_json_number(text) {
                lemma_number_reads(text, tail, depth);
            } else {
                lemma_string_reads(text, tail, depth);
            }
        },
        ValueView::Signed(n) => {
            lemma_decimal_is_number(n as int);
            lemma_number_reads(signed_decimal(n as int), tail, depth);
        },
        ValueView::Unsigned(n) => {
            lemma_decimal_is_number(n as int);
            lemma_number_reads(decimal(n as nat), tail, depth);
        },
        ValueView::Bool(b) => {
            lemma_bool_reads(b, tail, depth);
        },
        ValueView::Str(text) => {
            lemma_string_reads(text, tail, depth);
        },
        ValueView::Debug(text) => {
            if is_inline_object(text) {
                lemma_object_reads(text, tail);
            } else {
                lemma_string_reads(text, tail, depth);
            }
        },
    }
}

/// The ordinary fields as members, in front of what goes on with the object
/// and ends it, go on with the object and end it in their turn.
pub proof fn lemma_entries_close(entries: Seq<EntryView>, tail: Seq<char>, rest: Seq<char>)
    requires
        closes_object(tail, MAX_DEPTH as nat, rest),
    ensures
        closes_object(entries_json(entries) + tail, MAX_DEPTH as nat, rest),
    decreases entries.len(),
{
    if entries.len() == 0 {
        assert(entries_json(entries) + tail =~= tail);
    } else {
        let last = entries.last();
        let longer = entry_json(last) + tail;
        assert(tail.len() > 0 && (tail[0] == ',' || tail[0] == '}')) by {
            reveal(closes_object);
        }
        lemma_value_json_reads(last.value, tail);
        lemma_member_closes(last.key, value_json(last.value), tail, MAX_DEPTH as nat, rest);
        lemma_entries_close(entries.drop_last(), longer, rest);
        assert(entries_json(entries) + tail =~= entries_json(entries.drop_last()) + longer);
    }
}

/// Strings as the member `stack`, in front of what goes on with the object
/// and ends it, go on with the object and end it in their turn.
pub proof fn lemma_stack_member_closes(items: Seq<Seq<char>>, tail: Seq<char>, rest: Seq<char>)
    requires
        closes_object(tail, MAX_DEPTH as nat, rest),
    ensures
        closes_object(stack_member_json(items) + tail, MAX_DEPTH as nat, rest),
{
    lemma_strings_read(items, tail, MAX_DEPTH as nat);
    lemma_member_closes("stack"@, strings_json(items), tail, MAX_DEPTH as nat, rest);
}

/// The start of a JSON line, in front of what goes on with the object and
/// ends it, reads as an object.
pub proof fn lemma_preamble_opens(
    stamp: Seq<char>,
    level: Level,
    tail: Seq<char>,
    rest: Seq<char>,
)
    requires
        closes_object(tail, MAX_DEPTH as nat, rest),
    ensures
        read_value(preamble_json(stamp, level) + tail, (MAX_DEPTH + 1) as nat) == Some(rest),
{
    let depth = MAX_DEPTH as nat;
    let instant = json_quote(stamp + "Z"@);
    let after = text_member_json("level"@, level_text(level)) + tail;
    let inner = member_json("timestamp"@, instant) + after;
    let text = preamble_json(stamp, level) + tail;
    reveal_strlit("{");
    lemma_text_member_closes("level"@, level_text(level), tail, depth, rest);
    lemma_string_reads(stamp + "Z"@, after, depth);
    lemma_member_closes("timestamp"@, instant, after, depth, rest);
    assert(text =~= "{"@ + inner);
    assert(text.skip(1) =~= inner);
    assert(inner[0] == '"');
    assert(skip_spaces(inner) == inner);
}

/// A JSON line begins with an opening brace.
pub proof fn lemma_preamble_begins(stamp: Seq<char>, level: Level, tail: Seq<char>)
    ensures
        (preamble_json(stamp, level) + tail).len() > 0,
        (preamble_json(stamp, level) + tail)[0] == '{',
{
    reveal_strlit("{");
}

} // verus!
