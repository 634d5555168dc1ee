//! The error chain: one link for every layer boundary that an error crossed,
//! the root cause first.

use vstd::prelude::*;
use vstd::string::*;
use crate::error_string::{error_debug_text, Error};
use crate::grammar::{
    closes_object, lemma_member_closes, lemma_string_reads, lemma_text_member_closes,
    read_elements, read_value, reads_before, skip_spaces,
};
use crate::json::{
    json_quote, lemma_read_quoted, member_json, quote, read_string, text_member_json,
    write_key_json, write_text_member_json,
};
use crate::text::{
    join, lemma_join_front, lemma_join_push, lemma_read_word, lemma_regroup,
    lemma_regroup_tail, read_word,
};

verus! {

/// One link of a chain: an error was turned from `source` into `target` at
/// `location`, and `msg` says what went wrong there.
#[derive(Debug)]
pub struct StackItem {
    pub msg: String,
    pub location: String,
    pub source: String,
    pub target: String,
}

/// What a [`StackItem`] holds, as plain text.
pub struct StackItemView {
    pub msg: Seq<char>,
    pub location: Seq<char>,
    pub source: Seq<char>,
    pub target: Seq<char>,
}

impl View for StackItem {
    type V = StackItemView;

    open spec fn view(&self) -> StackItemView {
        StackItemView {
            msg: self.msg@,
            location: self.location@,
            source: self.source@,
            target: self.target@,
        }
    }
}

impl Clone for StackItem {
    fn clone(&self) -> (r: Self)
        ensures
            r@ == self@,
    {
        StackItem {
            msg: self.msg.clone(),
            location: self.location.clone(),
            source: self.source.clone(),
            target: self.target.clone(),
        }
    }
}

/// The links of `items`, each as plain text.
pub open spec fn links_view(items: Seq<StackItem>) -> Seq<StackItemView> {
    items.map_values(|item: StackItem| item@)
}

/// An error chain. `backtrace` holds its links, the root cause first and the
/// latest conversion last.
#[derive(Debug)]
pub struct CoreError {
    pub backtrace: Vec<StackItem>,
}

impl View for CoreError {
    type V = Seq<StackItemView>;

    open spec fn view(&self) -> Seq<StackItemView> {
        links_view(self.backtrace@)
    }
}

/// The link that starts a chain: the foreign error's display text is the
/// message, its debug text stands for the type it came from.
pub open spec fn seed_link(
    message: Seq<char>,
    source: Seq<char>,
    target: Seq<char>,
    location: Seq<char>,
) -> StackItemView {
    StackItemView { msg: message, location, source, target }
}

/// The link that a conversion between two layers adds: it has no message of
/// its own.
pub open spec fn conversion_link(
    source: Seq<char>,
    target: Seq<char>,
    location: Seq<char>,
) -> StackItemView {
    StackItemView { msg: Seq::empty(), location, source, target }
}

/// One link as a JSON object: the members `source`, `target`, `msg` and
/// `location` in this order, each text a JSON string literal.
#[verifier::opaque]
pub open spec fn link_json(item: StackItemView) -> Seq<char> {
    "{"@ + member_json("source"@, json_quote(item.source)) + text_member_json(
        "target"@,
        item.target,
    ) + text_member_json("msg"@, item.msg) + text_member_json("location"@, item.location) + "}"@
}

/// The links as JSON objects, in chain order, with commas between them.
pub open spec fn links_json(links: Seq<StackItemView>) -> Seq<char> {
    join(links.map_values(|item: StackItemView| link_json(item)), ","@)
}

/// The links as a JSON array of objects, in chain order.
pub open spec fn links_array_json(links: Seq<StackItemView>) -> Seq<char> {
    "["@ + links_json(links) + "]"@
}

/// A chain as JSON text: an object whose one member, `backtrace`, holds the
/// array of its links.
pub open spec fn backtrace_json(links: Seq<StackItemView>) -> Seq<char> {
    "{"@ + member_json("backtrace"@, links_array_json(links)) + "}"@
}

/// The message that sums a chain up: that of the oldest link that has one,
/// and the empty text where no link has.
pub open spec fn summary_message(links: Seq<StackItemView>) -> Seq<char>
    decreases links.len(),
{
    if links.len() == 0 {
        Seq::empty()
    } else if links[0].msg.len() > 0 {
        links[0].msg
    } else {
        summary_message(links.skip(1))
    }
}

/// Appends one link as a JSON object to `buf`.
pub fn write_link_json(buf: &mut String, item: &StackItem)
    ensures
        final(buf)@ == old(buf)@ + link_json(item@),
{
    buf.append("{");
    write_key_json(buf, "source");
    buf.append(quote(item.source.as_str()).as_str());
    write_text_member_json(buf, "target", item.target.as_str());
    write_text_member_json(buf, "msg", item.msg.as_str());
    write_text_member_json(buf, "location", item.location.as_str());
    buf.append("}");
    proof {
        reveal(link_json);
        assert(buf@ =~= old(buf)@ + link_json(item@));
    }
}

impl Clone for CoreError {
    fn clone(&self) -> (r: Self)
        ensures
            r@ == self@,
    {
        let mut backtrace: Vec<StackItem> = Vec::new();
        let mut i: usize = 0;
        while i < self.backtrace.len()
            invariant
                i <= self.backtrace.len(),
                links_view(backtrace@) == self@.take(i as int),
            decreases self.backtrace.len() - i,
        {
            let ghost before = backtrace@;
            let item = self.backtrace[i].clone();
            backtrace.push(item);
            i = i + 1;
            assert(links_view(backtrace@) =~= links_view(before).push(item@));
            assert(self@.take(i as int) =~= self@.take(i - 1).push(self@[i - 1]));
        }
        assert(self@.take(i as int) =~= self@);
        CoreError { backtrace }
    }
}

impl CoreError {
    /// Starts a chain at the point where a foreign error enters the layer
    /// `target`. `message` is the foreign error's display text and `source`
    /// its debug text; `location` is the call site of the conversion.
    pub fn seed(message: &str, source: &str, target: &str, location: &str) -> (chain: CoreError)
        ensures
            chain@ == seq![seed_link(message@, source@, target@, location@)],
            chain@.len() == 1,
            chain@[0].msg == message@,
    {
        let item = StackItem {
            msg: message.to_owned(),
            location: location.to_owned(),
            source: source.to_owned(),
            target: target.to_owned(),
        };
        let mut backtrace: Vec<StackItem> = Vec::new();
        backtrace.push(item);
        assert(links_view(backtrace@) =~= seq![seed_link(message@, source@, target@, location@)]);
        CoreError { backtrace }
    }

    /// Starts a chain from an [`Error`] that enters the layer `target` at
    /// `location`: its display text is the message, its debug text stands
    /// for the type it came from.
    pub fn from_error(error: &Error, target: &str, location: &str) -> (chain: CoreError)
        ensures
            chain@ == seq![
                seed_link(error.0@, error_debug_text(error.0@), target@, location@),
            ],
    {
        let message = error.to_string();
        let source = error.debug_text();
        CoreError::seed(message.as_str(), source.as_str(), target, location)
    }

    /// Takes the chain over the boundary from layer `source` to layer
    /// `target`, which it crosses at `location`: one link is added at the end
    /// and nothing else changes. The old chain is used up.
    pub fn extend(self, source: &str, target: &str, location: &str) -> (chain: CoreError)
        ensures
            chain@ == self@.push(conversion_link(source@, target@, location@)),
            chain@.len() == self@.len() + 1,
            forall|i: int| 0 <= i < self@.len() ==> chain@[i] == self@[i],
            chain@.last().location == location@,
            chain@.last().source == source@,
            chain@.last().target == target@,
            chain@.last().msg.len() == 0,
    {
        let item = StackItem {
            msg: String::new(),
            location: location.to_owned(),
            source: source.to_owned(),
            target: target.to_owned(),
        };
        let mut backtrace = self.backtrace;
        backtrace.push(item);
        assert(links_view(backtrace@) =~= self@.push(
            conversion_link(source@, target@, location@),
        ));
        CoreError { backtrace }
    }

    /// The chain as JSON text, every link in chain order and every text
    /// escaped by itself. The text is JSON, and reads back as the chain.
    pub fn render_json(&self) -> (text: String)
        ensures
            text@ == backtrace_json(self@),
            read_backtrace(text@) == Some(self@),
            read_value(text@, CHAIN_DEPTH as nat) == Some(Seq::<char>::empty()),
    {
        proof {
            lemma_render_json_reads_back(self@);
            lemma_render_json_is_json(self@);
        }
        let mut buf = String::new();
        buf.append("{");
        write_key_json(&mut buf, "backtrace");
        buf.append("[");
        let ghost start = buf@;
        let mut i: usize = 0;
        while i < self.backtrace.len()
            invariant
                i <= self.backtrace.len(),
                buf@ == start + links_json(self@.take(i as int)),
            decreases self.backtrace.len() - i,
        {
            let ghost before = self@.take(i as int).map_values(|item: StackItemView| link_json(item));
            if i > 0 {
                buf.append(",");
            }
            write_link_json(&mut buf, &self.backtrace[i]);
            proof {
                lemma_join_push(before, ","@, link_json(self@[i as int]));
                assert(self@.take(i + 1).map_values(|item: StackItemView| link_json(item))
                    =~= before.push(link_json(self@[i as int])));
                assert(buf@ =~= start + links_json(self@.take(i + 1)));
            }
            i = i + 1;
        }
        assert(self@.take(i as int) =~= self@);
        buf.append("]");
        buf.append("}");
        assert(buf@ =~= backtrace_json(self@));
        buf
    }

    /// The message that sums the chain up.
    pub fn summary(&self) -> (text: String)
        ensures
            text@ == summary_message(self@),
    {
        let mut i: usize = 0;
        assert(self@.skip(0) =~= self@);
        while i < self.backtrace.len()
            invariant
                i <= self.backtrace.len(),
                summary_message(self@) == summary_message(self@.skip(i as int)),
            decreases self.backtrace.len() - i,
        {
            assert(self@.skip(i as int)[0] == self@[i as int]);
            if !self.backtrace[i].msg.as_str().is_empty() {
                return self.backtrace[i].msg.clone();
            }
            assert(self@.skip(i as int).skip(1) =~= self@.skip(i + 1));
            i = i + 1;
        }
        String::new()
    }
}

/// Reads a member from the front of `text` whose key is `key` and whose
/// value is a string literal, behind `lead`, the brace or comma that stands
/// before it: the string, and what follows it.
pub open spec fn read_text_member(text: Seq<char>, lead: Seq<char>, key: Seq<char>) -> Option<
    (Seq<char>, Seq<char>),
> {
    match read_word(text, lead + json_quote(key) + ":"@) {
        Some(after) => read_string(after),
        None => None,
    }
}

/// Reads one link from the front of `text`, as `link_json` writes it: the
/// link, and what follows it.
#[verifier::opaque]
pub open spec fn read_link(text: Seq<char>) -> Option<(StackItemView, Seq<char>)> {
    match read_text_member(text, "{"@, "source"@) {
        None => None,
        Some((source, t1)) => match read_text_member(t1, ","@, "target"@) {
            None => None,
            Some((target, t2)) => match read_text_member(t2, ","@, "msg"@) {
                None => None,
                Some((msg, t3)) => match read_text_member(t3, ","@, "location"@) {
                    None => None,
                    Some((location, t4)) => match read_word(t4, "}"@) {
                        None => None,
                        Some(rest) => Some((StackItemView { msg, location, source, target }, rest)),
                    },
                },
            },
        },
    }
}

/// Reads links from the front of `text` for as long as a comma follows: the
/// links in the order in which they stand, and what follows the last.
pub open spec fn read_links(text: Seq<char>) -> Option<(Seq<StackItemView>, Seq<char>)>
    decreases text.len(),
{
    match read_link(text) {
        None => None,
        Some((item, rest)) => if rest.len() > 0 && rest[0] == ',' && rest.len() <= text.len() {
            match read_links(rest.skip(1)) {
                Some((items, end)) => Some((seq![item] + items, end)),
                None => None,
            }
        } else {
            Some((seq![item], rest))
        },
    }
}

/// Reads a chain from the text that `backtrace_json` writes: its links in
/// chain order.
pub open spec fn read_backtrace(text: Seq<char>) -> Option<Seq<StackItemView>> {
    match read_word(text, "{"@ + json_quote("backtrace"@) + ":"@ + "["@) {
        None => None,
        Some(inner) => if inner == "]"@ + "}"@ {
            Some(Seq::empty())
        } else {
            match read_links(inner) {
                Some((items, rest)) => if rest == "]"@ + "}"@ {
                    Some(items)
                } else {
                    None
                },
                None => None,
            }
        },
    }
}

/// A member that was written with a string literal as its value reads back:
/// behind `lead`, the key and the colon, the string is read, and the reading
/// stops right behind it.
pub proof fn lemma_read_text_member(
    lead: Seq<char>,
    key: Seq<char>,
    s: Seq<char>,
    rest: Seq<char>,
)
    ensures
        read_text_member(lead + member_json(key, json_quote(s)) + rest, lead, key) == Some(
            (s, rest),
        ),
{
    let word = lead + json_quote(key) + ":"@;
    let after = json_quote(s) + rest;
    assert(lead + member_json(key, json_quote(s)) + rest =~= word + after);
    lemma_read_word(word, after);
    lemma_read_quoted(s, rest);
}

/// A link and what follows it, as the brace and the first member and then
/// the other members one by one.
pub proof fn lemma_link_json_unfolds(item: StackItemView, rest: Seq<char>)
    ensures
        link_json(item) + rest == "{"@ + member_json("source"@, json_quote(item.source)) + (
        text_member_json("target"@, item.target) + (text_member_json("msg"@, item.msg) + (
        text_member_json("location"@, item.location) + ("}"@ + rest)))),
{
    reveal(link_json);
    lemma_regroup(
        "{"@ + member_json("source"@, json_quote(item.source)),
        text_member_json("target"@, item.target),
        text_member_json("msg"@, item.msg),
        text_member_json("location"@, item.location),
        "}"@,
    );
    let all = "{"@ + member_json("source"@, json_quote(item.source)) + (text_member_json(
        "target"@,
        item.target,
    ) + (text_member_json("msg"@, item.msg) + (text_member_json("location"@, item.location)
        + "}"@)));
    assert(link_json(item) == all);
    lemma_regroup_tail(
        "{"@ + member_json("source"@, json_quote(item.source)),
        text_member_json("target"@, item.target),
        text_member_json("msg"@, item.msg),
        text_member_json("location"@, item.location),
        "}"@,
        rest,
    );
}

/// A link that was written reads back as the same link, and the reading
/// stops right behind it.
pub proof fn lemma_read_link(item: StackItemView, rest: Seq<char>)
    ensures
        read_link(link_json(item) + rest) == Some((item, rest)),
{
    reveal(read_link);
    let t4 = "}"@ + rest;
    let t3 = text_member_json("location"@, item.location) + t4;
    let t2 = text_member_json("msg"@, item.msg) + t3;
    let t1 = text_member_json("target"@, item.target) + t2;
    lemma_link_json_unfolds(item, rest);
    lemma_read_text_member("{"@, "source"@, item.source, t1);
    lemma_read_text_member(","@, "target"@, item.target, t2);
    lemma_read_text_member(","@, "msg"@, item.msg, t3);
    lemma_read_text_member(","@, "location"@, item.location, t4);
    lemma_read_word("}"@, rest);
}

/// A written link begins with its opening brace.
pub proof fn lemma_link_json_begins(item: StackItemView)
    ensures
        link_json(item).len() > 0,
        link_json(item)[0] == '{',
{
    reveal(link_json);
    reveal_strlit("{");
}

/// Links that were written with commas between them read back as the same
/// links, where no comma follows the last.
pub proof fn lemma_read_links(links: Seq<StackItemView>, rest: Seq<char>)
    requires
        links.len() > 0,
        rest.len() == 0 || rest[0] != ',',
    ensures
        read_links(links_json(links) + rest) == Some((links, rest)),
    decreases links.len(),
{
    let parts = links.map_values(|item: StackItemView| link_json(item));
    let text = links_json(links) + rest;
    lemma_join_front(parts, ","@);
    reveal_strlit(",");
    if links.len() == 1 {
        assert(text =~= link_json(links[0]) + rest);
        lemma_read_link(links[0], rest);
        assert(seq![links[0]] =~= links);
    } else {
        let tail = links.skip(1);
        let after = links_json(tail) + rest;
        assert(parts.skip(1) =~= tail.map_values(|item: StackItemView| link_json(item)));
        let follow = ","@ + after;
        assert(join(parts, ","@) == parts[0] + ","@ + join(parts.skip(1), ","@));
        assert(text =~= link_json(links[0]) + follow);
        lemma_read_link(links[0], follow);
        assert(follow[0] == ',');
        assert(follow.skip(1) =~= after);
        assert(follow.len() <= text.len());
        lemma_read_links(tail, rest);
        assert(seq![links[0]] + tail =~= links);
    }
}

/// A chain that was rendered as JSON reads back as the same chain: as many
/// links, in the same order, each with its four texts.
pub proof fn lemma_render_json_reads_back(links: Seq<StackItemView>)
    ensures
        read_backtrace(backtrace_json(links)) == Some(links),
{
    let open = "{"@ + json_quote("backtrace"@) + ":"@ + "["@;
    let close = "]"@ + "}"@;
    let inner = links_json(links) + close;
    assert(backtrace_json(links) =~= open + inner);
    lemma_read_word(open, inner);
    reveal_strlit("]");
    if links.len() == 0 {
        assert(inner =~= close);
        assert(links =~= Seq::empty());
    } else {
        lemma_read_links(links, close);
        let parts = links.map_values(|item: StackItemView| link_json(item));
        lemma_join_front(parts, ","@);
        lemma_link_json_begins(links[0]);
        assert(inner[0] == '{');
        assert(close[0] == ']');
    }
}

/// A link that was written reads as a JSON value, whatever follows it.
pub proof fn lemma_link_reads(item: StackItemView, tail: Seq<char>, depth: nat)
    requires
        depth > 0,
    ensures
        reads_before(link_json(item), tail, depth),
{
    let inside = (depth - 1) as nat;
    let end = "}"@ + tail;
    let t3 = text_member_json("location"@, item.location) + end;
    let t2 = text_member_json("msg"@, item.msg) + t3;
    let t1 = text_member_json("target"@, item.target) + t2;
    let inner = member_json("source"@, json_quote(item.source)) + t1;
    reveal_strlit("{");
    reveal_strlit("}");
    assert(closes_object(end, inside, tail)) by {
        reveal(closes_object);
        assert(end.skip(1) =~= tail);
    }
    lemma_text_member_closes("location"@, item.location, end, inside, tail);
    lemma_text_member_closes("msg"@, item.msg, t3, inside, tail);
    lemma_text_member_closes("target"@, item.target, t2, inside, tail);
    lemma_string_reads(item.source, t1, inside);
    lemma_member_closes("source"@, json_quote(item.source), t1, inside, tail);
    lemma_link_json_unfolds(item, tail);
    lemma_link_json_begins(item);
    let text = link_json(item) + tail;
    assert(text == "{"@ + inner) by {
        assert("{"@ + member_json("source"@, json_quote(item.source)) + t1 =~= "{"@ + inner);
    }
    assert(text.skip(1) =~= inner);
    assert(inner[0] == '"');
    assert(skip_spaces(inner) == inner);
}

/// Links that were written with commas between them and a closing bracket
/// behind them read as the elements of an array.
pub proof fn lemma_link_elements_read(links: Seq<StackItemView>, tail: Seq<char>, depth: nat)
    requires
        links.len() > 0,
        depth > 0,
    ensures
        read_elements(links_json(links) + ("]"@ + tail), depth) == Some(tail),
    decreases links.len(),
{
    let parts = links.map_values(|item: StackItemView| link_json(item));
    let close = "]"@ + tail;
    let text = links_json(links) + close;
    reveal_strlit(",");
    reveal_strlit("]");
    lemma_join_front(parts, ","@);
    assert(close.skip(1) =~= tail);
    if links.len() == 1 {
        lemma_link_reads(links[0], close, depth);
        assert(skip_spaces(close) == close);
    } else {
        let more = links_json(links.skip(1)) + close;
        let next = ","@ + more;
        assert(parts.skip(1) =~= links.skip(1).map_values(|item: StackItemView| link_json(item)));
        assert(text == link_json(links[0]) + next) by {
            assert(parts[0] + ","@ + join(parts.skip(1), ","@) + close =~= parts[0] + next);
        }
        lemma_link_reads(links[0], next, depth);
        assert(skip_spaces(next) == next);
        assert(next.skip(1) =~= more);
        lemma_join_front(parts.skip(1), ","@);
        lemma_link_json_begins(links[1]);
        assert(more[0] == '{');
        assert(skip_spaces(more) == more);
        lemma_link_elements_read(links.skip(1), tail, depth);
    }
}

/// The links as a JSON array read as a value, whatever follows it.
pub proof fn lemma_links_array_reads(links: Seq<StackItemView>, tail: Seq<char>, depth: nat)
    requires
        depth > 1,
    ensures
        reads_before(links_array_json(links), tail, depth),
{
    let close = "]"@ + tail;
    let inner = links_json(links) + close;
    let text = links_array_json(links) + tail;
    reveal_strlit("[");
    reveal_strlit("]");
    assert(text =~= "["@ + inner);
    assert(text.skip(1) =~= inner);
    if links.len() == 0 {
        assert(inner =~= close);
        assert(inner.skip(1) =~= tail);
        assert(skip_spaces(inner) == inner);
    } else {
        let parts = links.map_values(|item: StackItemView| link_json(item));
        lemma_join_front(parts, ","@);
        lemma_link_json_begins(links[0]);
        assert(inner[0] == '{');
        assert(skip_spaces(inner) == inner);
        lemma_link_elements_read(links, tail, (depth - 1) as nat);
    }
}

/// How deep the JSON text of a chain nests: the object, the array in it, and
/// the links in the array.
pub const CHAIN_DEPTH: usize = 3;

/// A chain that was rendered as JSON is JSON: one object, and nothing
/// behind it.
pub proof fn lemma_render_json_is_json(links: Seq<StackItemView>)
    ensures
        read_value(backtrace_json(links), CHAIN_DEPTH as nat) == Some(Seq::<char>::empty()),
{
    let none = Seq::<char>::empty();
    let end = "}"@;
    let inner = member_json("backtrace"@, links_array_json(links)) + end;
    let text = backtrace_json(links);
    reveal_strlit("{");
    reveal_strlit("}");
    assert(closes_object(end, 2, none)) by {
        reveal(closes_object);
        assert(end.skip(1) =~= none);
    }
    lemma_links_array_reads(links, end, 2);
    lemma_member_closes("backtrace"@, links_array_json(links), end, 2, none);
    assert(text =~= "{"@ + inner);
    assert(text.skip(1) =~= inner);
    assert(inner[0] == '"');
    assert(skip_spaces(inner) == inner);
}

} // verus!
