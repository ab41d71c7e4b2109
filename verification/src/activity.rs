//! Discord activity read from Codex session logs: the text of a message
//! record, and the tracking of a turn that a Discord message started.

use vstd::prelude::*;
use crate::json::{
    Json, JsonView, field, field2, field_or_null, text_field, text_or, as_text, views_of,
    lemma_views_of, json_of_text, parse_json,
};
use crate::text::{
    contains, join, take_chars, copy_str, str_eq, str_contains, take_str, chars_of, string_from,
};

verus! {

broadcast use {vstd::string::group_string_axioms, vstd::std_specs::vec::group_vec_axioms};

/// The text of one content item: the `text` of an `input_text` or
/// `output_text` item.
pub open spec fn item_text(item: JsonView) -> Option<Seq<char>> {
    let t = text_or(text_field(item, "type"@), ""@);
    if t == "input_text"@ || t == "output_text"@ {
        text_field(item, "text"@)
    } else {
        None
    }
}

/// The texts of the content items, in order.
pub open spec fn item_texts(items: Seq<JsonView>) -> Seq<Seq<char>>
    decreases items.len(),
{
    if items.len() == 0 {
        Seq::empty()
    } else {
        let rest = item_texts(items.drop_last());
        match item_text(items.last()) {
            Some(t) => rest.push(t),
            None => rest,
        }
    }
}

/// The text of a message payload: its content texts joined by line feeds;
/// empty when there is no content array.
pub open spec fn text_content(payload: JsonView) -> Seq<char> {
    match field(payload, "content"@) {
        Some(JsonView::Array(items)) => join(item_texts(items), "\n"@),
        _ => Seq::empty(),
    }
}

proof fn lemma_join_push(parts: Seq<Seq<char>>, sep: Seq<char>, t: Seq<char>)
    ensures
        join(parts.push(t), sep) == if parts.len() == 0 {
            t
        } else {
            join(parts, sep) + sep + t
        },
{
    assert(parts.push(t).drop_last() =~= parts);
}

proof fn lemma_item_texts_len(items: Seq<JsonView>)
    ensures
        forall|i: int| 0 <= i <= items.len() ==> #[trigger] item_texts(items.take(i)).len() <= i,
{
    assert forall|i: int| 0 <= i <= items.len() implies #[trigger] item_texts(items.take(i)).len()
        <= i by {
        lemma_item_texts_len_of(items.take(i));
    }
}

proof fn lemma_item_texts_len_of(items: Seq<JsonView>)
    ensures
        item_texts(items).len() <= items.len(),
    decreases items.len(),
{
    if items.len() > 0 {
        lemma_item_texts_len_of(items.drop_last());
    }
}

/// The text of a message payload (see `text_content`).
pub fn extract_text_content(payload: &Json) -> (r: String)
    ensures
        r@ == text_content(payload@),
{
    let arr = match payload.get("content") {
        Some(c) => match c.as_array() {
            Some(a) => a,
            None => {
                return String::new();
            },
        },
        None => {
            return String::new();
        },
    };
    proof {
        lemma_views_of(arr@);
        lemma_item_texts_len(views_of(arr@));
    }
    let ghost items = views_of(arr@);
    let mut out: Vec<char> = Vec::new();
    let mut count: usize = 0;
    let mut i: usize = 0;
    while i < arr.len()
        invariant
            i <= arr.len(),
            items == views_of(arr@),
            items.len() == arr.len(),
            forall|k: int| 0 <= k < arr.len() ==> #[trigger] items[k] == arr@[k]@,
            count == item_texts(items.take(i as int)).len(),
            count <= i,
            out@ == join(item_texts(items.take(i as int)), "\n"@),
        decreases arr.len() - i,
    {
        let item = &arr[i];
        let ty = item.get_str_or("type", "");
        let ghost before = item_texts(items.take(i as int));
        proof {
            assert(items.take(i + 1).drop_last() =~= items.take(i as int));
            assert(items.take(i + 1).last() == item@);
        }
        if str_eq(ty.as_str(), "input_text") || str_eq(ty.as_str(), "output_text") {
            if let Some(t) = item.get_str("text") {
                let tv = chars_of(t.as_str());
                proof {
                    lemma_join_push(before, "\n"@, t@);
                }
                if count > 0 {
                    out.push('\n');
                }
                let mut j: usize = 0;
                let ghost base = out@;
                while j < tv.len()
                    invariant
                        j <= tv.len(),
                        out@ == base + tv@.take(j as int),
                    decreases tv.len() - j,
                {
                    out.push(tv[j]);
                    j += 1;
                    assert(tv@.take(j as int) =~= tv@.take(j - 1).push(tv@[j - 1]));
                }
                proof {
                    assert(tv@.take(tv.len() as int) =~= tv@);
                    if count > 0 {
                        reveal_strlit("\n");
                        assert(base =~= join(before, "\n"@) + "\n"@);
                    } else {
                        assert(base =~= Seq::<char>::empty());
                    }
                }
                count += 1;
            }
        }
        i += 1;
    }
    proof {
        assert(items.take(arr.len() as int) =~= items);
        assert(payload@ is Object);
    }
    string_from(&out)
}

/// Discord activity shown in the front end.
#[derive(Debug)]
pub enum DiscordActivity {
    UserMessage { text: String },
    BotResponse { text: String },
    ToolCall { name: String },
    TurnComplete,
}

pub enum ActivityView {
    UserMessage { text: Seq<char> },
    BotResponse { text: Seq<char> },
    ToolCall { name: Seq<char> },
    TurnComplete,
}

impl View for DiscordActivity {
    type V = ActivityView;

    open spec fn view(&self) -> ActivityView {
        match self {
            DiscordActivity::UserMessage { text } => ActivityView::UserMessage { text: text@ },
            DiscordActivity::BotResponse { text } => ActivityView::BotResponse { text: text@ },
            DiscordActivity::ToolCall { name } => ActivityView::ToolCall { name: name@ },
            DiscordActivity::TurnComplete => ActivityView::TurnComplete,
        }
    }
}

pub open spec fn opt_activity(a: Option<DiscordActivity>) -> Option<ActivityView> {
    match a {
        Some(x) => Some(x@),
        None => None,
    }
}

/// How long a shown message text may be, in characters.
pub const ACTIVITY_TEXT_LIMIT: usize = 500;

/// One session-log record read while in (or out of) a Discord turn: whether
/// a Discord turn is going on afterwards, and the activity to show.
/// A user message carrying the Discord mark ("📩" and "Discord") starts a
/// turn; assistant messages and tool calls are shown only during a turn; a
/// completed task ends it.
pub open spec fn discord_step(record: JsonView, in_turn: bool) -> (bool, Option<ActivityView>) {
    let record_type = text_or(text_field(record, "type"@), ""@);
    if record_type == "response_item"@ {
        let payload = field_or_null(record, "payload"@);
        let role = text_or(text_field(payload, "role"@), ""@);
        let ptype = text_or(text_field(payload, "type"@), ""@);
        if role == "user"@ && ptype == "message"@ {
            let text = text_content(payload);
            if contains(text, "Discord"@) && contains(text, "📩"@) {
                (true, Some(ActivityView::UserMessage { text: take_chars(text, 500) }))
            } else {
                (in_turn, None)
            }
        } else if role == "assistant"@ && ptype == "message"@ && in_turn {
            let text = text_content(payload);
            if text.len() > 0 {
                (in_turn, Some(ActivityView::BotResponse { text: take_chars(text, 500) }))
            } else {
                (in_turn, None)
            }
        } else if ptype == "function_call"@ && in_turn {
            (in_turn, Some(ActivityView::ToolCall { name: text_or(text_field(payload, "name"@), "unknown"@) }))
        } else {
            (in_turn, None)
        }
    } else if record_type == "event_msg"@ {
        let event_type = text_or(as_text(field2(record, "payload"@, "type"@)), ""@);
        if event_type == "task_complete"@ && in_turn {
            (false, Some(ActivityView::TurnComplete))
        } else {
            (in_turn, None)
        }
    } else {
        (in_turn, None)
    }
}

/// Applies one session-log record to the Discord turn state and returns the
/// activity to show (see `discord_step`).
pub fn process_discord_jsonl(record: &Json, in_discord_turn: &mut bool) -> (r: Option<DiscordActivity>)
    ensures
        (*final(in_discord_turn), opt_activity(r)) == discord_step(record@, *old(in_discord_turn)),
{
    let record_type = record.get_str_or("type", "");
    if str_eq(record_type.as_str(), "response_item") {
        let payload = record.get_or_null("payload");
        let role = payload.get_str_or("role", "");
        let ptype = payload.get_str_or("type", "");
        let is_message = str_eq(ptype.as_str(), "message");
        if str_eq(role.as_str(), "user") && is_message {
            let text = extract_text_content(&payload);
            if str_contains(text.as_str(), "Discord") && str_contains(text.as_str(), "📩") {
                *in_discord_turn = true;
                return Some(DiscordActivity::UserMessage { text: take_str(text.as_str(), ACTIVITY_TEXT_LIMIT) });
            }
            None
        } else if str_eq(role.as_str(), "assistant") && is_message && *in_discord_turn {
            let text = extract_text_content(&payload);
            if text.as_str().is_empty() {
                None
            } else {
                Some(DiscordActivity::BotResponse { text: take_str(text.as_str(), ACTIVITY_TEXT_LIMIT) })
            }
        } else if str_eq(ptype.as_str(), "function_call") && *in_discord_turn {
            Some(DiscordActivity::ToolCall { name: payload.get_str_or("name", "unknown") })
        } else {
            None
        }
    } else if str_eq(record_type.as_str(), "event_msg") {
        let event_type = match record.get("payload") {
            Some(p) => p.get_str_or("type", ""),
            None => copy_str(""),
        };
        if str_eq(event_type.as_str(), "task_complete") && *in_discord_turn {
            *in_discord_turn = false;
            Some(DiscordActivity::TurnComplete)
        } else {
            None
        }
    } else {
        None
    }
}

/// One line of a session log: a JSON record is applied (see
/// `discord_step`); a line that is not JSON changes nothing.
pub open spec fn line_step(line: Seq<char>, in_turn: bool) -> (bool, Option<ActivityView>) {
    match json_of_text(line) {
        Some(record) => discord_step(record, in_turn),
        None => (in_turn, None),
    }
}

/// Lines of a session log applied in order: the turn state afterwards and
/// the activities shown, in order.
pub open spec fn discord_lines(ls: Seq<Seq<char>>, in_turn: bool) -> (bool, Seq<ActivityView>)
    decreases ls.len(),
{
    if ls.len() == 0 {
        (in_turn, Seq::empty())
    } else {
        let (t, shown) = discord_lines(ls.drop_last(), in_turn);
        let (t2, a) = line_step(ls.last(), t);
        (
            t2,
            match a {
                Some(x) => shown.push(x),
                None => shown,
            },
        )
    }
}

pub open spec fn activities_view(v: Seq<DiscordActivity>) -> Seq<ActivityView> {
    v.map_values(|a: DiscordActivity| a@)
}

pub open spec fn texts_view(v: Seq<String>) -> Seq<Seq<char>> {
    v.map_values(|s: String| s@)
}

/// Applies one line of a session log (see `line_step`).
pub fn process_discord_line(line: &str, in_discord_turn: &mut bool) -> (r: Option<DiscordActivity>)
    ensures
        (*final(in_discord_turn), opt_activity(r)) == line_step(line@, *old(in_discord_turn)),
{
    match parse_json(line) {
        Some(record) => process_discord_jsonl(&record, in_discord_turn),
        None => None,
    }
}

/// Applies lines of a session log in order (see `discord_lines`).
pub fn process_discord_lines(lines: &Vec<String>, in_discord_turn: &mut bool) -> (r: Vec<DiscordActivity>)
    ensures
        (*final(in_discord_turn), activities_view(r@)) == discord_lines(texts_view(lines@), *old(in_discord_turn)),
{
    let ghost start = *in_discord_turn;
    let mut out: Vec<DiscordActivity> = Vec::new();
    let mut i: usize = 0;
    while i < lines.len()
        invariant
            i <= lines.len(),
            (*in_discord_turn, activities_view(out@)) == discord_lines(texts_view(lines@).take(i as int), start),
        decreases lines.len() - i,
    {
        proof {
            assert(texts_view(lines@).take(i + 1).drop_last() =~= texts_view(lines@).take(i as int));
            assert(texts_view(lines@).take(i + 1).last() == lines@[i as int]@);
        }
        let ghost prev = out@;
        match process_discord_line(lines[i].as_str(), in_discord_turn) {
            Some(a) => {
                out.push(a);
                proof {
                    assert(activities_view(out@) =~= activities_view(prev).push(out@[out.len() - 1]@));
                }
            },
            None => {},
        }
        i += 1;
    }
    proof {
        assert(texts_view(lines@).take(lines.len() as int) =~= texts_view(lines@));
    }
    out
}

/// The turn discipline: replies and tool calls are shown only inside a
/// Discord turn and leave it going; only a Discord user message starts a
/// turn, and only a completed task inside a turn ends it.
pub proof fn discord_turn_discipline(record: JsonView, in_turn: bool)
    ensures
        ({
            let (after, shown) = discord_step(record, in_turn);
            &&& (shown matches Some(ActivityView::BotResponse { .. }) ==> in_turn && after)
            &&& (shown matches Some(ActivityView::ToolCall { .. }) ==> in_turn && after)
            &&& (shown matches Some(ActivityView::TurnComplete) ==> in_turn && !after)
            &&& (shown matches Some(ActivityView::UserMessage { .. }) ==> after)
            &&& (after && !in_turn ==> shown matches Some(ActivityView::UserMessage { .. }))
            &&& (!after && in_turn ==> shown matches Some(ActivityView::TurnComplete))
        }),
{
}

/// A shown message is the whole message text cut at 500 characters: its
/// first `min(500, len)` characters, newlines included.
pub proof fn shown_text_is_the_message_start(record: JsonView, in_turn: bool)
    ensures
        ({
            let shown = discord_step(record, in_turn).1;
            let full = text_content(field_or_null(record, "payload"@));
            let n = if full.len() < 500 { full.len() } else { 500 };
            &&& (shown matches Some(ActivityView::BotResponse { text }) ==> text.len() == n && text
                =~= full.subrange(0, n as int))
            &&& (shown matches Some(ActivityView::UserMessage { text }) ==> text.len() == n && text
                =~= full.subrange(0, n as int))
        }),
{
}

/// Shown message texts hold at most 500 characters.
pub proof fn activity_text_bounded(record: JsonView, in_turn: bool)
    ensures
        ({
            let shown = discord_step(record, in_turn).1;
            &&& (shown matches Some(ActivityView::UserMessage { text }) ==> text.len() <= 500)
            &&& (shown matches Some(ActivityView::BotResponse { text }) ==> text.len() <= 500)
        }),
{
}

} // verus!
