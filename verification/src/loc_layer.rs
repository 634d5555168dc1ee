//! The layers: they render an event under its name, unless the event names
//! the place it speaks of, and hand the whole rendering back in one piece,
//! so that it can go to the sink in a single write.

use vstd::prelude::*;
use vstd::string::*;
use crate::clock::{now, timestamp, timestamp_text, RenderError};
use crate::event::{field_text, Event, EventView, NormalizedEvent, NormalizedEventView};
use crate::grammar::{lemma_text_member_closes, MAX_DEPTH};
use crate::json::{
    lemma_text_member_json_stays_on_line, text_member_json, write_text_member_json,
};
use crate::loc_error::StackItemView;
use crate::loc_formater::{json_formatter_line, pretty_formatter_text, pretty_text, render_pretty};
use crate::render::{
    entries_json, is_json_line, is_one_line, lemma_entries_close,
    lemma_entries_json_stay_on_line, lemma_line_end_closes, lemma_preamble_begins,
    lemma_preamble_json_stays_on_line, lemma_preamble_opens, lemma_stack_json_stays_on_line,
    lemma_stack_member_closes, link_summaries, message_json, preamble_json, rendering_view,
    stack_member_json, write_entries_json, write_preamble_json, write_stack_json,
};
use crate::text::{is_single_line, lemma_regroup};
use crate::visitor::{
    call_site_text, lemma_caller_hides_default, lemma_caller_overrides_default, normalize,
    normalized,
};

verus! {

/// Appends `text` to the buffer that an event is rendered into.
pub fn write(buf: &mut String, text: &str)
    ensures
        final(buf)@ == old(buf)@ + text@,
{
    buf.append(text);
}

/// The JSON line of a normalized event, `stamp` being the text of its
/// instant: the instant and the level; `name`, the name or place that the
/// event shows; the message, where there is one, as `message`; the ordinary
/// fields in the order of emission; and `stack`, the links of the chain in
/// chain order, only where a chain came with the event.
pub open spec fn layer_json(event: NormalizedEventView, stamp: Seq<char>) -> Seq<char> {
    preamble_json(stamp, event.level) + text_member_json("name"@, event.name_or_location)
        + message_json("message"@, event.message) + entries_json(event.fields)
        + chain_json(event.backtrace) + "}\n"@
}

/// The member `stack` of a JSON line for the chain that came with an event,
/// or nothing where none came.
pub open spec fn chain_json(backtrace: Option<Seq<StackItemView>>) -> Seq<char> {
    match backtrace {
        Some(links) => stack_member_json(link_summaries(links)),
        None => Seq::empty(),
    }
}

/// What the JSON layer makes of an event at the instant `unix_time`.
pub open spec fn json_layer_line(event: EventView, unix_time: i64) -> Result<
    Seq<char>,
    RenderError,
> {
    match timestamp_text(unix_time as int) {
        Some(stamp) => Ok(layer_json(normalized(event, unix_time, event.name), stamp)),
        None => Err(RenderError::Timestamp),
    }
}

/// What the pretty layer makes of an event at the instant `unix_time`.
pub open spec fn pretty_layer_text(event: EventView, unix_time: i64) -> Result<
    Seq<char>,
    RenderError,
> {
    match timestamp_text(unix_time as int) {
        Some(stamp) => Ok(pretty_text(normalized(event, unix_time, event.name), stamp)),
        None => Err(RenderError::Timestamp),
    }
}

/// Renders events as JSON, one object on one line for each, under the name
/// of the event.
pub struct JsonLayer;

impl JsonLayer {
    /// Renders a normalized event as a JSON line.
    pub fn render(&self, event: &NormalizedEvent) -> (r: Result<String, RenderError>)
        ensures
            match r {
                Ok(line) => timestamp_text(event.timestamp as int) matches Some(stamp) && line@
                    == layer_json(event@, stamp),
                Err(e) => e == RenderError::Timestamp && timestamp_text(event.timestamp as int)
                    is None,
            },
            r matches Ok(line) ==> is_one_line(line@) && is_json_line(line@),
    {
        let stamp = match timestamp(event.timestamp) {
            Ok(stamp) => stamp,
            Err(e) => {
                return Err(e);
            },
        };
        let mut buf = String::new();
        write_preamble_json(&mut buf, stamp.as_str(), event.level);
        write_text_member_json(&mut buf, "name", event.name_or_location.as_str());
        match &event.message {
            Some(text) => write_text_member_json(&mut buf, "message", text.as_str()),
            None => {},
        }
        write_entries_json(&mut buf, &event.fields);
        match &event.backtrace {
            Some(chain) => write_stack_json(&mut buf, chain),
            None => {},
        }
        write(&mut buf, "}\n");
        proof {
            assert(buf@ =~= layer_json(event@, stamp@));
            lemma_layer_json_is_one_line(event@, stamp@);
            lemma_layer_json_is_json(event@, stamp@);
        }
        Ok(buf)
    }

    /// Renders `event` as it happened at the instant `unix_time`. The name
    /// shown is that of the event, unless a `caller` field gives a place.
    pub fn on_event_at(&self, event: &Event, unix_time: i64) -> (r: Result<String, RenderError>)
        ensures
            rendering_view(r) == json_layer_line(event@, unix_time),
            r matches Ok(line) ==> is_one_line(line@) && is_json_line(line@),
    {
        let normal = normalize(event, unix_time, event.name.as_str());
        self.render(&normal)
    }

    /// Renders `event` as it happens now, by the system clock.
    pub fn on_event(&self, event: &Event) -> (r: Result<String, RenderError>)
        ensures
            r matches Ok(line) ==> exists|t: i64|
                json_layer_line(event@, t) == Ok::<Seq<char>, RenderError>(line@),
            r matches Err(RenderError::Timestamp) ==> exists|t: i64|
                json_layer_line(event@, t) is Err,
            r matches Ok(line) ==> is_one_line(line@) && is_json_line(line@),
    {
        match now() {
            Ok(t) => self.on_event_at(event, t),
            Err(e) => Err(e),
        }
    }
}

/// Renders events as text for people, under the name of the event.
pub struct PrettyLayer;

impl PrettyLayer {
    /// Renders `event` as it happened at the instant `unix_time`. The name
    /// shown is that of the event, unless a `caller` field gives a place.
    pub fn on_event_at(&self, event: &Event, unix_time: i64) -> (r: Result<String, RenderError>)
        ensures
            rendering_view(r) == pretty_layer_text(event@, unix_time),
    {
        let normal = normalize(event, unix_time, event.name.as_str());
        render_pretty(&normal)
    }

    /// Renders `event` as it happens now, by the system clock.
    pub fn on_event(&self, event: &Event) -> (r: Result<String, RenderError>)
        ensures
            r matches Ok(text) ==> exists|t: i64|
                pretty_layer_text(event@, t) == Ok::<Seq<char>, RenderError>(text@),
            r matches Err(RenderError::Timestamp) ==> exists|t: i64|
                pretty_layer_text(event@, t) is Err,
    {
        match now() {
            Ok(t) => self.on_event_at(event, t),
            Err(e) => Err(e),
        }
    }
}

/// Location override. Where an event has a field named `caller`, every
/// renderer shows the text of the last such field as the name or place of
/// the event, and none shows the event's own name, file or line: an event
/// that differs in nothing but these renders alike.
pub proof fn lemma_location_override(event: EventView, twin: EventView, unix_time: i64, i: int)
    requires
        0 <= i < event.fields.len(),
        event.fields[i].name == "caller"@,
        forall|j: int| i < j < event.fields.len() ==> event.fields[j].name != "caller"@,
        twin.level == event.level,
        twin.fields == event.fields,
    ensures
        normalized(event, unix_time, event.name).name_or_location == field_text(
            event.fields[i].value,
        ),
        normalized(
            event,
            unix_time,
            call_site_text(event.file, event.line),
        ).name_or_location == field_text(event.fields[i].value),
        json_layer_line(event, unix_time) == json_layer_line(twin, unix_time),
        pretty_layer_text(event, unix_time) == pretty_layer_text(twin, unix_time),
        json_formatter_line(event, unix_time) == json_formatter_line(twin, unix_time),
        pretty_formatter_text(event, unix_time) == pretty_formatter_text(twin, unix_time),
{
    let place = call_site_text(event.file, event.line);
    let twin_place = call_site_text(twin.file, twin.line);
    lemma_caller_overrides_default(event, unix_time, event.name, i);
    lemma_caller_overrides_default(event, unix_time, place, i);
    lemma_caller_hides_default(event, unix_time, event.name, twin.name, i);
    lemma_caller_hides_default(event, unix_time, place, twin_place, i);
    assert(normalized(twin, unix_time, twin.name) == normalized(event, unix_time, twin.name));
    assert(normalized(twin, unix_time, twin_place) == normalized(event, unix_time, twin_place));
}

/// The JSON line of the layer is one line, whatever the event holds.
pub proof fn lemma_layer_json_is_one_line(event: NormalizedEventView, stamp: Seq<char>)
    ensures
        is_one_line(layer_json(event, stamp)),
{
    let line = layer_json(event, stamp);
    lemma_preamble_json_stays_on_line(stamp, event.level);
    lemma_text_member_json_stays_on_line("name"@, event.name_or_location);
    match event.message {
        Some(text) => lemma_text_member_json_stays_on_line("message"@, text),
        None => {},
    }
    lemma_entries_json_stay_on_line(event.fields);
    match event.backtrace {
        Some(links) => lemma_stack_json_stays_on_line(link_summaries(links)),
        None => {},
    }
    reveal_strlit("}\n");
    let body = preamble_json(stamp, event.level) + text_member_json(
        "name"@,
        event.name_or_location,
    ) + message_json("message"@, event.message) + entries_json(event.fields) + chain_json(
        event.backtrace,
    );
    assert(is_single_line(body));
    assert(line.drop_last() =~= body + seq!['}']);
}

/// The JSON line of the layer is JSON, whatever the event holds.
pub proof fn lemma_layer_json_is_json(event: NormalizedEventView, stamp: Seq<char>)
    ensures
        is_json_line(layer_json(event, stamp)),
{
    let end = "}\n"@;
    let rest = "\n"@;
    let start = preamble_json(stamp, event.level);
    let name = text_member_json("name"@, event.name_or_location);
    let message = message_json("message"@, event.message);
    let fields = entries_json(event.fields);
    let chain = chain_json(event.backtrace);
    let from_chain = chain + end;
    let from_fields = fields + from_chain;
    let from_message = message + from_fields;
    let from_name = name + from_message;
    lemma_line_end_closes();
    match event.backtrace {
        Some(links) => lemma_stack_member_closes(link_summaries(links), end, rest),
        None => {
            assert(from_chain =~= end);
        },
    }
    lemma_entries_close(event.fields, from_chain, rest);
    match event.message {
        Some(text) => lemma_text_member_closes(
            "message"@,
            text,
            from_fields,
            MAX_DEPTH as nat,
            rest,
        ),
        None => {
            assert(from_message =~= from_fields);
        },
    }
    lemma_text_member_closes(
        "name"@,
        event.name_or_location,
        from_message,
        MAX_DEPTH as nat,
        rest,
    );
    lemma_preamble_opens(stamp, event.level, from_name, rest);
    lemma_preamble_begins(stamp, event.level, from_name);
    lemma_regroup(start + name, message, fields, chain, end);
    assert(start + name + from_message == start + from_name) by {
        assert(start + name + from_message =~= start + from_name);
    }
}

} // verus!
