//! The formatters: they render an event with the place where it was written
//! down, `file:line`, unless the event says otherwise.

use vstd::prelude::*;
use vstd::string::*;
use crate::clock::{now, timestamp, timestamp_text, RenderError};
use crate::event::{Event, EventView, NormalizedEvent, NormalizedEventView};
use crate::grammar::{lemma_text_member_closes, MAX_DEPTH};
use crate::json::{lemma_text_member_json_stays_on_line, write_text_member_json};
use crate::render::{
    colored_level, entries_json, entries_pretty, is_json_line, is_one_line,
    lemma_entries_close, lemma_entries_json_stay_on_line, lemma_line_end_closes,
    lemma_preamble_begins, lemma_preamble_json_stays_on_line, lemma_preamble_opens,
    lemma_stack_json_stays_on_line, lemma_stack_member_closes, link_summaries, links_pretty,
    message_json, preamble_json, rendering_view, stack_member_json, write_colored_level,
    write_entries_json, write_entries_pretty, write_links_pretty, write_place_json,
    write_preamble_json, write_stack_json,
};
use crate::text::{is_single_line, lemma_regroup};
use crate::visitor::{call_site, call_site_text, normalize, normalized};

verus! {

/// What stands in `stack`: the short forms of the links of the chain, in
/// chain order, or, where no chain came with the event, the one place that
/// the event shows.
pub open spec fn stack_items(event: NormalizedEventView) -> Seq<Seq<char>> {
    match event.backtrace {
        Some(links) => link_summaries(links),
        None => seq![event.name_or_location],
    }
}

/// The JSON line of a normalized event, `stamp` being the text of its
/// instant: the instant and the level; the message, where there is one, as
/// `msg`; the ordinary fields in the order of emission; and last `stack`.
pub open spec fn formatter_json(event: NormalizedEventView, stamp: Seq<char>) -> Seq<char> {
    preamble_json(stamp, event.level) + message_json("msg"@, event.message) + entries_json(
        event.fields,
    ) + stack_member_json(stack_items(event)) + "}\n"@
}

/// The text for people of a normalized event, `stamp` being the text of its
/// instant. The first line holds the instant and the level in colour, and
/// behind them the ordinary fields where no chain came with the event. A
/// chain has a line for each link, the oldest first. The last line holds the
/// place that the event shows and the message, or `None` for no message.
pub open spec fn pretty_text(event: NormalizedEventView, stamp: Seq<char>) -> Seq<char> {
    stamp + "Z "@ + colored_level(event.level) + ": "@ + (match event.backtrace {
        Some(links) => links_pretty(links),
        None => entries_pretty(event.fields),
    }) + "\n    "@ + event.name_or_location + " "@ + (match event.message {
        Some(text) => text,
        None => "None"@,
    }) + "\n"@
}

/// What the JSON formatter makes of an event at the instant `unix_time`.
pub open spec fn json_formatter_line(event: EventView, unix_time: i64) -> Result<
    Seq<char>,
    RenderError,
> {
    match timestamp_text(unix_time as int) {
        Some(stamp) => Ok(
            formatter_json(
                normalized(event, unix_time, call_site_text(event.file, event.line)),
                stamp,
            ),
        ),
        None => Err(RenderError::Timestamp),
    }
}

/// What the pretty formatter makes of an event at the instant `unix_time`.
pub open spec fn pretty_formatter_text(event: EventView, unix_time: i64) -> Result<
    Seq<char>,
    RenderError,
> {
    match timestamp_text(unix_time as int) {
        Some(stamp) => Ok(
            pretty_text(
                normalized(event, unix_time, call_site_text(event.file, event.line)),
                stamp,
            ),
        ),
        None => Err(RenderError::Timestamp),
    }
}

/// Renders a normalized event as text for people.
pub fn render_pretty(event: &NormalizedEvent) -> (r: Result<String, RenderError>)
    ensures
        match r {
            Ok(text) => timestamp_text(event.timestamp as int) matches Some(stamp) && text@
                == pretty_text(event@, stamp),
            Err(e) => e == RenderError::Timestamp && timestamp_text(event.timestamp as int)
                is None,
        },
{
    let stamp = match timestamp(event.timestamp) {
        Ok(stamp) => stamp,
        Err(e) => {
            return Err(e);
        },
    };
    let mut buf = String::new();
    buf.append(stamp.as_str());
    buf.append("Z ");
    write_colored_level(&mut buf, event.level);
    buf.append(": ");
    match &event.backtrace {
        Some(chain) => write_links_pretty(&mut buf, chain),
        None => write_entries_pretty(&mut buf, &event.fields),
    }
    buf.append("\n    ");
    buf.append(event.name_or_location.as_str());
    buf.append(" ");
    match &event.message {
        Some(text) => buf.append(text.as_str()),
        None => buf.append("None"),
    }
    buf.append("\n");
    assert(buf@ =~= pretty_text(event@, stamp@));
    Ok(buf)
}

/// Renders events as text for people, in colour and on several lines.
pub struct PrettyFormatter;

impl PrettyFormatter {
    /// Renders `event` as it happened at the instant `unix_time`. The place
    /// shown is `file:line`, unless a `caller` field gives another.
    pub fn format_event_at(&self, event: &Event, unix_time: i64) -> (r: Result<
        String,
        RenderError,
    >)
        ensures
            rendering_view(r) == pretty_formatter_text(event@, unix_time),
    {
        let place = call_site(&event.file, event.line);
        let normal = normalize(event, unix_time, place.as_str());
        render_pretty(&normal)
    }

    /// Renders `event` as it happens now, by the system clock.
    pub fn format_event(&self, event: &Event) -> (r: Result<String, RenderError>)
        ensures
            r matches Ok(text) ==> exists|t: i64|
                pretty_formatter_text(event@, t) == Ok::<Seq<char>, RenderError>(text@),
            r matches Err(RenderError::Timestamp) ==> exists|t: i64|
                pretty_formatter_text(event@, t) is Err,
    {
        match now() {
            Ok(t) => self.format_event_at(event, t),
            Err(e) => Err(e),
        }
    }
}

/// Renders events as JSON, one object on one line for each.
pub struct JsonFormatter;

impl JsonFormatter {
    /// Renders a normalized event as a JSON line.
    pub fn render(&self, event: &NormalizedEvent) -> (r: Result<String, RenderError>)
        ensures
            match r {
                Ok(line) => timestamp_text(event.timestamp as int) matches Some(stamp) && line@
                    == formatter_json(event@, stamp),
                Err(e) => e == RenderError::Timestamp && timestamp_text(event.timestamp as int)
                    is None,
            },
            r matches Ok(line) ==> is_one_line(line@) && is_json_line(line@),
    {
        let stamp = match timestamp(event.timestamp) {
            Ok(stamp) => stamp,
            Err(e) => {
                return Err(e);
            },
        };
        let mut buf = String::new();
        write_preamble_json(&mut buf, stamp.as_str(), event.level);
        match &event.message {
            Some(text) => write_text_member_json(&mut buf, "msg", text.as_str()),
            None => {},
        }
        write_entries_json(&mut buf, &event.fields);
        match &event.backtrace {
            Some(chain) => write_stack_json(&mut buf, chain),
            None => write_place_json(&mut buf, event.name_or_location.as_str()),
        }
        buf.append("}\n");
        proof {
            assert(buf@ =~= formatter_json(event@, stamp@));
            lemma_formatter_json_is_one_line(event@, stamp@);
            lemma_formatter_json_is_json(event@, stamp@);
        }
        Ok(buf)
    }

    /// Renders `event` as it happened at the instant `unix_time`. Where no
    /// chain came with the event, the place in `stack` is `file:line`, unless
    /// a `caller` field gives another.
    pub fn format_event_at(&self, event: &Event, unix_time: i64) -> (r: Result<
        String,
        RenderError,
    >)
        ensures
            rendering_view(r) == json_formatter_line(event@, unix_time),
            r matches Ok(line) ==> is_one_line(line@) && is_json_line(line@),
    {
        let place = call_site(&event.file, event.line);
        let normal = normalize(event, unix_time, place.as_str());
        self.render(&normal)
    }

    /// Renders `event` as it happens now, by the system clock.
    pub fn format_event(&self, event: &Event) -> (r: Result<String, RenderError>)
        ensures
            r matches Ok(line) ==> exists|t: i64|
                json_formatter_line(event@, t) == Ok::<Seq<char>, RenderError>(line@),
            r matches Err(RenderError::Timestamp) ==> exists|t: i64|
                json_formatter_line(event@, t) is Err,
            r matches Ok(line) ==> is_one_line(line@) && is_json_line(line@),
    {
        match now() {
            Ok(t) => self.format_event_at(event, t),
            Err(e) => Err(e),
        }
    }
}

/// The JSON line of the formatter is one line, whatever the event holds.
pub proof fn lemma_formatter_json_is_one_line(event: NormalizedEventView, stamp: Seq<char>)
    ensures
        is_one_line(formatter_json(event, stamp)),
{
    let line = formatter_json(event, stamp);
    lemma_preamble_json_stays_on_line(stamp, event.level);
    match event.message {
        Some(text) => lemma_text_member_json_stays_on_line("msg"@, text),
        None => {},
    }
    lemma_entries_json_stay_on_line(event.fields);
    lemma_stack_json_stays_on_line(stack_items(event));
    reveal_strlit("}\n");
    let body = preamble_json(stamp, event.level) + message_json("msg"@, event.message)
        + entries_json(event.fields) + stack_member_json(stack_items(event));
    assert(is_single_line(body));
    assert(line.drop_last() =~= body + seq!['}']);
}

/// The JSON line of the formatter is JSON, whatever the event holds.
pub proof fn lemma_formatter_json_is_json(event: NormalizedEventView, stamp: Seq<char>)
    ensures
        is_json_line(formatter_json(event, stamp)),
{
    let end = "}\n"@;
    let rest = "\n"@;
    let from_stack = stack_member_json(stack_items(event)) + end;
    let from_fields = entries_json(event.fields) + from_stack;
    let from_message = message_json("msg"@, event.message) + from_fields;
    lemma_line_end_closes();
    lemma_stack_member_closes(stack_items(event), end, rest);
    lemma_entries_close(event.fields, from_stack, rest);
    match event.message {
        Some(text) => lemma_text_member_closes(
            "msg"@,
            text,
            from_fields,
            MAX_DEPTH as nat,
            rest,
        ),
        None => {
            assert(from_message =~= from_fields);
        },
    }
    lemma_preamble_opens(stamp, event.level, from_message, rest);
    lemma_regroup(
        preamble_json(stamp, event.level),
        message_json("msg"@, event.message),
        entries_json(event.fields),
        stack_member_json(stack_items(event)),
        end,
    );
    lemma_preamble_begins(stamp, event.level, from_message);
}

} // verus!
