//! The Codex app-server protocol: request bookkeeping, request and
//! notification messages, and the routing of incoming messages to pending
//! requests and to front-end events.

use vstd::prelude::*;
use std::collections::HashMap;
use vstd::std_specs::iter::IteratorSpec;
use tokio::sync::oneshot::Sender;
use crate::json::{
    Json, JsonNumber, JsonView, NumberView, field, field2, field_or_null, text_field, text_or,
    as_text, as_u64_of, insert_entry, lemma_insert_entry_lookup, lookup, json_of_text, json_text_of,
    json_text, parse_json,
};
use crate::text::{
    copy_str, str_eq, trim, trim_chars, chars_of, string_from, concat, decimal, decimal_string,
    is_blank, blank,
};

verus! {

broadcast use {
    vstd::string::group_string_axioms,
    vstd::std_specs::hash::group_hash_axioms,
    vstd::std_specs::vec::group_vec_axioms,
};

/// Declares tokio's one-shot sender, through which a pending request is answered.
#[verifier::external_type_specification]
#[verifier::external_body]
#[verifier::reject_recursive_types(T)]
pub struct ExOneshotSender<T>(tokio::sync::oneshot::Sender<T>);

/// What a request is answered with: the `result` member, or the error message.
pub type Reply = Result<Json, String>;

pub open spec fn reply_view(r: Reply) -> Result<JsonView, Seq<char>> {
    match r {
        Ok(j) => Ok(j@),
        Err(e) => Err(e@),
    }
}

/// The port the app-server listens on unless another is asked for.
pub const DEFAULT_PORT: u16 = 45888;

/// How many times connecting to the app-server is tried.
pub const CONNECT_ATTEMPTS: u64 = 10;

/// Events sent to the front end.
#[derive(Debug)]
pub enum CodexEvent {
    Connected,
    ThreadReady { thread_id: String },
    TextDelta { delta: String },
    TextComplete { text: String },
    ItemStarted { item_type: String, item_id: String, details: Json },
    ItemCompleted { item_type: String, item_id: String, text: Option<String>, details: Json },
    TurnComplete { turn_id: String },
    Error { message: String },
    ProcessExited,
}

pub enum CodexEventView {
    Connected,
    ThreadReady { thread_id: Seq<char> },
    TextDelta { delta: Seq<char> },
    TextComplete { text: Seq<char> },
    ItemStarted { item_type: Seq<char>, item_id: Seq<char>, details: JsonView },
    ItemCompleted {
        item_type: Seq<char>,
        item_id: Seq<char>,
        text: Option<Seq<char>>,
        details: JsonView,
    },
    TurnComplete { turn_id: Seq<char> },
    Error { message: Seq<char> },
    ProcessExited,
}

pub open spec fn opt_text(t: Option<String>) -> Option<Seq<char>> {
    match t {
        Some(s) => Some(s@),
        None => None,
    }
}

impl View for CodexEvent {
    type V = CodexEventView;

    open spec fn view(&self) -> CodexEventView {
        match self {
            CodexEvent::Connected => CodexEventView::Connected,
            CodexEvent::ThreadReady { thread_id } => CodexEventView::ThreadReady {
                thread_id: thread_id@,
            },
            CodexEvent::TextDelta { delta } => CodexEventView::TextDelta { delta: delta@ },
            CodexEvent::TextComplete { text } => CodexEventView::TextComplete { text: text@ },
            CodexEvent::ItemStarted { item_type, item_id, details } => CodexEventView::ItemStarted {
                item_type: item_type@,
                item_id: item_id@,
                details: details@,
            },
            CodexEvent::ItemCompleted { item_type, item_id, text, details } =>
                CodexEventView::ItemCompleted {
                item_type: item_type@,
                item_id: item_id@,
                text: opt_text(*text),
                details: details@,
            },
            CodexEvent::TurnComplete { turn_id } => CodexEventView::TurnComplete {
                turn_id: turn_id@,
            },
            CodexEvent::Error { message } => CodexEventView::Error { message: message@ },
            CodexEvent::ProcessExited => CodexEventView::ProcessExited,
        }
    }
}

/// Where an incoming message goes.
#[derive(Debug)]
pub enum Routed {
    /// The answer to the pending request `id`, to be sent through `tx`.
    Reply { id: u64, tx: Sender<Reply>, reply: Reply },
    /// An event for the front end.
    Event(CodexEvent),
    /// Nothing to do.
    Ignored,
}

pub enum RouteView {
    Reply { id: u64, reply: Result<JsonView, Seq<char>> },
    Event(CodexEventView),
    Ignored,
}

impl View for Routed {
    type V = RouteView;

    open spec fn view(&self) -> RouteView {
        match self {
            Routed::Reply { id, tx, reply } => RouteView::Reply { id: *id, reply: reply_view(*reply) },
            Routed::Event(e) => RouteView::Event(e@),
            Routed::Ignored => RouteView::Ignored,
        }
    }
}

/// The event a notification with `method` and `params` produces.
pub open spec fn notification_route(method: Seq<char>, params: JsonView) -> RouteView {
    if method == "thread/started"@ {
        match as_text(field2(params, "thread"@, "id"@)) {
            Some(t) => RouteView::Event(CodexEventView::ThreadReady { thread_id: t }),
            None => RouteView::Ignored,
        }
    } else if method == "item/agentMessage/delta"@ {
        match text_field(params, "delta"@) {
            Some(d) => RouteView::Event(CodexEventView::TextDelta { delta: d }),
            None => RouteView::Ignored,
        }
    } else if method == "item/started"@ {
        let item_type = text_or(as_text(field2(params, "item"@, "type"@)), "unknown"@);
        let item_id = text_or(as_text(field2(params, "item"@, "id"@)), ""@);
        if item_type != "agentMessage"@ {
            RouteView::Event(
                CodexEventView::ItemStarted {
                    item_type,
                    item_id,
                    details: field_or_null(params, "item"@),
                },
            )
        } else {
            RouteView::Ignored
        }
    } else if method == "item/completed"@ {
        let item_type = text_or(as_text(field2(params, "item"@, "type"@)), "unknown"@);
        let item_id = text_or(as_text(field2(params, "item"@, "id"@)), ""@);
        let text = as_text(field2(params, "item"@, "text"@));
        if item_type == "agentMessage"@ {
            RouteView::Event(CodexEventView::TextComplete { text: text_or(text, ""@) })
        } else {
            RouteView::Event(
                CodexEventView::ItemCompleted {
                    item_type,
                    item_id,
                    text,
                    details: field_or_null(params, "item"@),
                },
            )
        }
    } else if method == "turn/completed"@ {
        RouteView::Event(
            CodexEventView::TurnComplete {
                turn_id: text_or(as_text(field2(params, "turn"@, "id"@)), ""@),
            },
        )
    } else if method == "error"@ {
        RouteView::Event(CodexEventView::Error { message: json_text_of(params) })
    } else {
        RouteView::Ignored
    }
}

/// Where `msg` goes when the requests in `pending` are waiting for answers:
/// a message with a numeric `id` answers that request (and is dropped when no
/// such request waits); a message with a `method` is a notification.
pub open spec fn route(pending: Set<u64>, msg: JsonView) -> RouteView {
    match as_u64_of(field(msg, "id"@)) {
        Some(id) => if pending.contains(id) {
            RouteView::Reply {
                id,
                reply: match field(msg, "error"@) {
                    Some(err) => Err(text_or(text_field(err, "message"@), "unknown error"@)),
                    None => Ok(field_or_null(msg, "result"@)),
                },
            }
        } else {
            RouteView::Ignored
        },
        None => match text_field(msg, "method"@) {
            Some(m) => notification_route(m, field_or_null(msg, "params"@)),
            None => RouteView::Ignored,
        },
    }
}

/// An answered request is no longer waiting: the same answer arriving again
/// is dropped.
pub proof fn response_answers_once(pending: Set<u64>, msg: JsonView)
    requires
        route(pending, msg) is Reply,
    ensures
        route(pending.remove(route(pending, msg)->Reply_id), msg) is Ignored,
{
}

/// A message without an `id` never touches the pending requests, whatever they are.
pub proof fn notifications_ignore_pending(p1: Set<u64>, p2: Set<u64>, msg: JsonView)
    requires
        as_u64_of(field(msg, "id"@)) is None,
    ensures
        route(p1, msg) == route(p2, msg),
        !(route(p1, msg) is Reply),
{
}

/// The request message `{"id", "method", "params"}`.
pub open spec fn request_message(id: u64, method: Seq<char>, params: JsonView) -> JsonView {
    JsonView::Object(
        seq![
            ("id"@, JsonView::Number(NumberView::PosInt(id))),
            ("method"@, JsonView::Str(method)),
            ("params"@, params),
        ],
    )
}

/// The notification message `{"method", "params"}`.
pub open spec fn notification_message_view(method: Seq<char>, params: JsonView) -> JsonView {
    JsonView::Object(seq![("method"@, JsonView::Str(method)), ("params"@, params)])
}

/// The model to pass on: the trimmed name, when it is not blank.
pub open spec fn model_choice(model: Option<Seq<char>>) -> Option<Seq<char>> {
    match model {
        Some(m) => if trim(m).len() > 0 {
            Some(trim(m))
        } else {
            None
        },
        None => None,
    }
}

/// `j` with `key` set to `value` when it is an object.
pub open spec fn with_field(j: JsonView, key: Seq<char>, value: JsonView) -> JsonView {
    match j {
        JsonView::Object(e) => JsonView::Object(insert_entry(e, key, value)),
        _ => j,
    }
}

/// The parameters once the model choice is applied.
pub open spec fn with_model(params: JsonView, model: Option<Seq<char>>) -> JsonView {
    match model_choice(model) {
        Some(m) => with_field(params, "model"@, JsonView::Str(m)),
        None => params,
    }
}

/// The state kept about the app-server connection.
#[derive(Debug)]
pub struct CodexProcess {
    pub next_request_id: u64,
    pub pending_requests: HashMap<u64, Sender<Reply>>,
    pub current_thread_id: Option<String>,
    pub port: u16,
}

impl Default for CodexProcess {
    /// A fresh state (see `CodexProcess::new`).
    fn default() -> (p: CodexProcess)
        ensures
            p.wf(),
            p.next_request_id == 0,
            p.pending_requests@ == Map::<u64, Sender<Reply>>::empty(),
            p.current_thread_id is None,
            p.port == DEFAULT_PORT,
    {
        CodexProcess::new()
    }
}

/// A request that is answered because the app-server went away.
#[derive(Debug)]
pub struct PendingReply {
    pub id: u64,
    pub tx: Sender<Reply>,
    pub reply: Reply,
}

impl CodexProcess {
    /// Every pending request has an identifier that was already handed out.
    pub open spec fn wf(&self) -> bool {
        forall|id: u64| #[trigger]
            self.pending_requests@.contains_key(id) ==> 1 <= id <= self.next_request_id
    }

    /// A fresh state: no requests, no thread, the default port.
    pub fn new() -> (p: CodexProcess)
        ensures
            p.wf(),
            p.next_request_id == 0,
            p.pending_requests@ == Map::<u64, Sender<Reply>>::empty(),
            p.current_thread_id is None,
            p.port == DEFAULT_PORT,
    {
        CodexProcess {
            next_request_id: 0,
            pending_requests: HashMap::new(),
            current_thread_id: None,
            port: DEFAULT_PORT,
        }
    }

    /// Registers a request: it gets the next identifier and waits for its
    /// answer on `tx`. The text of the message to send is returned when the socket is
    /// connected; the request stays registered either way.
    pub fn begin_request(
        &mut self,
        tx: Sender<Reply>,
        method: &str,
        params: Json,
        connected: bool,
    ) -> (r: Result<(u64, String), String>)
        requires
            old(self).wf(),
            old(self).next_request_id < 0xffff_ffff_ffff_ffffu64,
        ensures
            final(self).wf(),
            final(self).next_request_id == old(self).next_request_id + 1,
            !old(self).pending_requests@.contains_key(final(self).next_request_id),
            final(self).pending_requests@ == old(self).pending_requests@.insert(
                final(self).next_request_id,
                tx,
            ),
            final(self).current_thread_id == old(self).current_thread_id,
            final(self).port == old(self).port,
            match r {
                Ok((id, text)) => {
                    &&& connected
                    &&& id == final(self).next_request_id
                    &&& text@ == json_text_of(request_message(id, method@, params@))
                },
                Err(e) => !connected && e@ == "WebSocket 尚未連線"@,
            },
    {
        self.next_request_id = self.next_request_id + 1;
        let id = self.next_request_id;
        self.pending_requests.insert(id, tx);
        if !connected {
            return Err(copy_str("WebSocket 尚未連線"));
        }
        let entries = vec![
            (copy_str("id"), Json::Number(JsonNumber::PosInt(id))),
            (copy_str("method"), Json::text(method)),
            (copy_str("params"), params),
        ];
        proof {
            crate::json::lemma_entry_views(entries@);
            assert(crate::json::entry_views(entries@) =~= seq![
                ("id"@, JsonView::Number(NumberView::PosInt(id))),
                ("method"@, JsonView::Str(method@)),
                ("params"@, params@),
            ]);
        }
        Ok((id, json_text(&Json::Object(entries))))
    }

    /// Routes an incoming message: an answer to a waiting request takes that
    /// request out of the waiting set; anything else leaves the state as it is.
    pub fn handle_message(&mut self, msg: &Json) -> (r: Routed)
        requires
            old(self).wf(),
        ensures
            final(self).wf(),
            r@ == route(old(self).pending_requests@.dom(), msg@),
            final(self).next_request_id == old(self).next_request_id,
            final(self).current_thread_id == old(self).current_thread_id,
            final(self).port == old(self).port,
            match r {
                Routed::Reply { id, tx, reply } => {
                    &&& old(self).pending_requests@.contains_key(id)
                    &&& tx == old(self).pending_requests@[id]
                    &&& final(self).pending_requests@ == old(self).pending_requests@.remove(id)
                },
                _ => final(self).pending_requests@ == old(self).pending_requests@,
            },
    {
        if let Some(id_value) = msg.get("id") {
            if let Some(id) = id_value.as_u64() {
                match self.pending_requests.remove(&id) {
                    Some(tx) => {
                        let reply = match msg.get("error") {
                            Some(err) => Err(err.get_str_or("message", "unknown error")),
                            None => Ok(msg.get_or_null("result")),
                        };
                        return Routed::Reply { id, tx, reply };
                    },
                    None => {
                        return Routed::Ignored;
                    },
                }
            }
        }
        match msg.get_str("method") {
            Some(method) => {
                let params = msg.get_or_null("params");
                notification_event(method.as_str(), params)
            },
            None => Routed::Ignored,
        }
    }

    /// Routes a text frame from the app-server: text that is not JSON is
    /// dropped; JSON is routed as `handle_message` routes it.
    pub fn handle_text(&mut self, text: &str) -> (r: Routed)
        requires
            old(self).wf(),
        ensures
            final(self).wf(),
            r@ == match json_of_text(text@) {
                Some(m) => route(old(self).pending_requests@.dom(), m),
                None => RouteView::Ignored,
            },
            final(self).next_request_id == old(self).next_request_id,
            final(self).current_thread_id == old(self).current_thread_id,
            final(self).port == old(self).port,
            match r {
                Routed::Reply { id, tx, reply } => {
                    &&& old(self).pending_requests@.contains_key(id)
                    &&& tx == old(self).pending_requests@[id]
                    &&& final(self).pending_requests@ == old(self).pending_requests@.remove(id)
                },
                _ => final(self).pending_requests@ == old(self).pending_requests@,
            },
    {
        match parse_json(text) {
            Some(msg) => self.handle_message(&msg),
            None => Routed::Ignored,
        }
    }

    /// Prepares for a new app-server on `port`: nothing waits, identifiers
    /// start again, no thread is current.
    pub fn begin_session(&mut self, port: u16)
        ensures
            final(self).wf(),
            final(self).port == port,
            final(self).next_request_id == 0,
            final(self).pending_requests@ == Map::<u64, Sender<Reply>>::empty(),
            final(self).current_thread_id is None,
    {
        self.port = port;
        self.next_request_id = 0;
        self.pending_requests.clear();
        self.current_thread_id = None;
    }

    /// Takes the answer to `thread/start`: the new thread becomes current.
    pub fn thread_created(&mut self, result: &Json) -> (r: Result<String, String>)
        requires
            old(self).wf(),
        ensures
            final(self).wf(),
            final(self).next_request_id == old(self).next_request_id,
            final(self).pending_requests@ == old(self).pending_requests@,
            final(self).port == old(self).port,
            match as_text(field2(result@, "thread"@, "id"@)) {
                Some(t) => {
                    &&& (r matches Ok(id) && id@ == t)
                    &&& (final(self).current_thread_id matches Some(c) && c@ == t)
                },
                None => {
                    &&& (r matches Err(e) && e@ == "thread/start 回應中沒有 thread.id"@)
                    &&& final(self).current_thread_id == old(self).current_thread_id
                },
            },
    {
        match nested_str(result, "thread", "id") {
            Some(id) => {
                self.current_thread_id = Some(id.clone());
                Ok(id)
            },
            None => Err(copy_str("thread/start 回應中沒有 thread.id")),
        }
    }

    /// Records that `thread_id` was resumed and is now current.
    pub fn thread_resumed(&mut self, thread_id: &str)
        requires
            old(self).wf(),
        ensures
            final(self).wf(),
            final(self).next_request_id == old(self).next_request_id,
            final(self).pending_requests@ == old(self).pending_requests@,
            final(self).port == old(self).port,
            (final(self).current_thread_id matches Some(c) && c@ == thread_id@),
    {
        self.current_thread_id = Some(copy_str(thread_id));
    }

    /// Forgets the current thread and takes out every waiting request; each is
    /// to be answered with the error that the app-server stopped.
    pub fn shutdown(&mut self) -> (r: Vec<PendingReply>)
        requires
            old(self).wf(),
        ensures
            final(self).wf(),
            final(self).pending_requests@ == Map::<u64, Sender<Reply>>::empty(),
            final(self).current_thread_id is None,
            final(self).next_request_id == old(self).next_request_id,
            final(self).port == old(self).port,
            r.len() == old(self).pending_requests@.len(),
            forall|i: int|
                0 <= i < r.len() ==> {
                    &&& old(self).pending_requests@.contains_key(#[trigger] r@[i].id)
                    &&& r@[i].tx == old(self).pending_requests@[r@[i].id]
                    &&& reply_view(r@[i].reply) == Err::<JsonView, Seq<char>>(
                        "app-server 已停止"@,
                    )
                },
            forall|i: int, j: int| 0 <= i < j < r.len() ==> r@[i].id != r@[j].id,
    {
        self.current_thread_id = None;
        let ghost old_pending = self.pending_requests@;
        let n = self.pending_requests.len();
        let mut keys: Vec<u64> = Vec::new();
        let ghost all = vstd::std_specs::hash::spec_keys_iter(&self.pending_requests).remaining();
        for k in it: self.pending_requests.keys()
            invariant
                it.seq() == all,
                keys@ == all.take(it.index() as int).unref(),
            ensures
                keys@ == all.unref(),
        {
            proof {
                assert(all.take(it.index() + 1).unref() =~= keys@.push(*k));
            }
            keys.push(*k);
        }
        proof {
            assert(all.unref().to_set() == old_pending.dom());
            assert(keys@.no_duplicates()) by {
                assert forall|a: int, b: int| 0 <= a < b < keys.len() implies keys@[a] != keys@[b] by {
                    assert(all[a] != all[b]);
                }
            }
        }
        let ghost ks = keys@;

        let mut out: Vec<PendingReply> = Vec::new();
        let mut i: usize = 0;
        while i < keys.len()
            invariant
                keys@ == ks,
                ks.no_duplicates(),
                ks.to_set() == old_pending.dom(),
                ks.len() == old_pending.dom().len(),
                0 <= i <= keys.len(),
                out.len() == i,
                self.current_thread_id is None,
                self.next_request_id == old(self).next_request_id,
                self.port == old(self).port,
                forall|k: u64|
                    #[trigger] self.pending_requests@.contains_key(k) <==> (
                    old_pending.contains_key(k) && !ks.take(i as int).contains(k)),
                forall|k: u64|
                    #[trigger] self.pending_requests@.contains_key(k) ==> self.pending_requests@[k]
                        == old_pending[k],
                forall|j: int|
                    0 <= j < i ==> {
                        &&& #[trigger] out@[j].id == ks[j]
                        &&& old_pending.contains_key(ks[j])
                        &&& out@[j].tx == old_pending[ks[j]]
                        &&& reply_view(out@[j].reply) == Err::<JsonView, Seq<char>>(
                            "app-server 已停止"@,
                        )
                    },
            decreases keys.len() - i,
        {
            let k = keys[i];
            proof {
                assert(ks.to_set().contains(k));
                assert(!ks.take(i as int).contains(k)) by {
                    if ks.take(i as int).contains(k) {
                        let t = ks.take(i as int);
                        let j = choose|j: int| 0 <= j < t.len() && #[trigger] t[j] == k;
                        assert(ks[j] == ks[i as int]);
                    }
                }
                assert(ks.take(i + 1) =~= ks.take(i as int).push(k));
            }
            let ghost cur = self.pending_requests@;
            let removed = self.pending_requests.remove(&k);
            proof {
                assert forall|k2: u64|
                    #[trigger] self.pending_requests@.contains_key(k2) <==> (old_pending.contains_key(
                        k2,
                    ) && !ks.take(i + 1).contains(k2)) by {
                    if k2 != k {
                        if ks.take(i + 1).contains(k2) {
                            let t = ks.take(i + 1);
                            let j = choose|j: int| 0 <= j < t.len() && #[trigger] t[j] == k2;
                            assert(ks.take(i as int)[j] == k2);
                        }
                        if ks.take(i as int).contains(k2) {
                            let t = ks.take(i as int);
                            let j = choose|j: int| 0 <= j < t.len() && #[trigger] t[j] == k2;
                            assert(ks.take(i + 1)[j] == k2);
                        }
                    } else {
                        assert(ks.take(i + 1)[i as int] == k);
                    }
                }
            }
            match removed {
                Some(tx) => {
                    assert(cur.contains_key(k) && cur[k] == tx);
                    assert(old_pending[k] == tx);
                    let ghost old_out = out@;
                    let reply: Reply = Err(copy_str("app-server 已停止"));
                    out.push(PendingReply { id: k, tx, reply });
                    proof {
                        assert forall|j: int| 0 <= j < i + 1 implies {
                            &&& #[trigger] out@[j].id == ks[j]
                            &&& old_pending.contains_key(ks[j])
                            &&& out@[j].tx == old_pending[ks[j]]
                            &&& reply_view(out@[j].reply) == Err::<JsonView, Seq<char>>(
                                "app-server 已停止"@,
                            )
                        } by {
                            if j < i {
                                assert(out@[j] == old_out[j]);
                            }
                        }
                    }
                },
                None => {
                    assert(false);
                },
            }
            i += 1;
        }
        proof {
            assert(ks.take(keys.len() as int) =~= ks);
            assert(self.pending_requests@ =~= Map::<u64, Sender<Reply>>::empty()) by {
                assert forall|k: u64| !self.pending_requests@.contains_key(k) by {
                    if old_pending.contains_key(k) {
                        assert(ks.to_set().contains(k));
                    }
                }
            }
        }
        out
    }
}

/// The text at `j.get(k1).and_then(|x| x.get(k2)).and_then(as_str)`, or `default`.
fn nested_str_or(j: &Json, k1: &str, k2: &str, default: &str) -> (r: String)
    ensures
        r@ == text_or(as_text(field2(j@, k1@, k2@)), default@),
{
    match j.get(k1) {
        Some(x) => x.get_str_or(k2, default),
        None => copy_str(default),
    }
}

/// The text at `j.get(k1).and_then(|x| x.get(k2)).and_then(as_str)`.
fn nested_str(j: &Json, k1: &str, k2: &str) -> (r: Option<String>)
    ensures
        opt_text(r) == as_text(field2(j@, k1@, k2@)),
{
    match j.get(k1) {
        Some(x) => match x.get_str(k2) {
            Some(s) => Some(s.clone()),
            None => None,
        },
        None => None,
    }
}

/// The event a notification produces (see `notification_route`).
pub fn notification_event(method: &str, params: Json) -> (r: Routed)
    ensures
        r@ == notification_route(method@, params@),
        !(r is Reply),
{
    if str_eq(method, "thread/started") {
        match nested_str(&params, "thread", "id") {
            Some(t) => Routed::Event(CodexEvent::ThreadReady { thread_id: t }),
            None => Routed::Ignored,
        }
    } else if str_eq(method, "item/agentMessage/delta") {
        match params.get_str("delta") {
            Some(d) => Routed::Event(CodexEvent::TextDelta { delta: d.clone() }),
            None => Routed::Ignored,
        }
    } else if str_eq(method, "item/started") {
        let item_type = nested_str_or(&params, "item", "type", "unknown");
        let item_id = nested_str_or(&params, "item", "id", "");
        if !str_eq(item_type.as_str(), "agentMessage") {
            Routed::Event(
                CodexEvent::ItemStarted { item_type, item_id, details: params.get_or_null("item") },
            )
        } else {
            Routed::Ignored
        }
    } else if str_eq(method, "item/completed") {
        let item_type = nested_str_or(&params, "item", "type", "unknown");
        let item_id = nested_str_or(&params, "item", "id", "");
        let text = nested_str(&params, "item", "text");
        if str_eq(item_type.as_str(), "agentMessage") {
            let t = match text {
                Some(t) => t,
                None => copy_str(""),
            };
            Routed::Event(CodexEvent::TextComplete { text: t })
        } else {
            Routed::Event(
                CodexEvent::ItemCompleted {
                    item_type,
                    item_id,
                    text,
                    details: params.get_or_null("item"),
                },
            )
        }
    } else if str_eq(method, "turn/completed") {
        Routed::Event(
            CodexEvent::TurnComplete { turn_id: nested_str_or(&params, "turn", "id", "") },
        )
    } else if str_eq(method, "error") {
        Routed::Event(CodexEvent::Error { message: json_text(&params) })
    } else {
        Routed::Ignored
    }
}

pub open spec fn opt_str(s: Option<&str>) -> Option<Seq<char>> {
    match s {
        Some(x) => Some(x@),
        None => None,
    }
}

/// Sets the `model` member to the trimmed model name when one is given and
/// not blank; the parameters are left as they are otherwise.
pub fn apply_model(params: &mut Json, model: Option<&str>)
    ensures
        final(params)@ == with_model(old(params)@, opt_str(model)),
{
    if let Some(m) = model {
        let v = chars_of(m);
        let t = trim_chars(&v);
        if t.len() > 0 {
            params.insert(copy_str("model"), Json::Str(string_from(&t)));
        }
    }
}

proof fn lemma_insert_entry_twice(
    e: Seq<(Seq<char>, JsonView)>,
    key: Seq<char>,
    value: JsonView,
)
    ensures
        insert_entry(insert_entry(e, key, value), key, value) == insert_entry(e, key, value),
    decreases e.len(),
{
    if e.len() == 0 {
        assert(insert_entry(e, key, value) =~= seq![(key, value)]);
        assert(seq![(key, value)].update(0, (key, value)) =~= seq![(key, value)]);
    } else if e[0].0 == key {
        let r = e.update(0, (key, value));
        assert(r.update(0, (key, value)) =~= r);
    } else {
        lemma_insert_entry_twice(e.drop_first(), key, value);
        let r = insert_entry(e, key, value);
        assert(r[0] == e[0]);
        assert(r.drop_first() =~= insert_entry(e.drop_first(), key, value));
        assert(insert_entry(r, key, value) =~= seq![e[0]] + insert_entry(r.drop_first(), key, value));
    }
}

/// Choosing the model twice gives what choosing it once gave.
pub proof fn apply_model_idempotent(params: JsonView, model: Option<Seq<char>>)
    ensures
        with_model(with_model(params, model), model) == with_model(params, model),
{
    if let Some(m) = model_choice(model) {
        if let JsonView::Object(e) = params {
            lemma_insert_entry_twice(e, "model"@, JsonView::Str(m));
        }
    }
}

/// After the model is applied to an object, its `model` member holds the
/// chosen name; every other member keeps its value.
pub proof fn apply_model_sets_member(
    e: Seq<(Seq<char>, JsonView)>,
    model: Option<Seq<char>>,
    other: Seq<char>,
)
    requires
        model_choice(model) is Some,
    ensures
        field(with_model(JsonView::Object(e), model), "model"@) == Some(
            JsonView::Str(model_choice(model)->0),
        ),
        other != "model"@ ==> field(with_model(JsonView::Object(e), model), other) == lookup(
            e,
            other,
        ),
{
    lemma_insert_entry_lookup(e, "model"@, JsonView::Str(model_choice(model)->0), other);
}

/// A completed item keeps its text: for an item other than an agent
/// message, the event is `ItemCompleted` with the item's type, id and whole
/// value, and its text is the item's `text` member exactly when that is a
/// string; a completed agent message gives its text, or the empty text.
pub proof fn completed_item_keeps_its_text(params: JsonView)
    ensures
        ({
            let item_type = text_or(as_text(field2(params, "item"@, "type"@)), "unknown"@);
            let text = as_text(field2(params, "item"@, "text"@));
            &&& item_type != "agentMessage"@ ==> notification_route("item/completed"@, params)
                == RouteView::Event(
                CodexEventView::ItemCompleted {
                    item_type,
                    item_id: text_or(as_text(field2(params, "item"@, "id"@)), ""@),
                    text,
                    details: field_or_null(params, "item"@),
                },
            )
            &&& item_type == "agentMessage"@ ==> notification_route("item/completed"@, params)
                == RouteView::Event(CodexEventView::TextComplete { text: text_or(text, ""@) })
        }),
{
    reveal_strlit("item/completed");
    reveal_strlit("thread/started");
    reveal_strlit("item/agentMessage/delta");
    reveal_strlit("item/started");
    assert("item/completed"@[0] != "thread/started"@[0]);
    assert("item/completed"@ != "thread/started"@);
    assert("item/completed"@.len() != "item/agentMessage/delta"@.len());
    assert("item/completed"@.len() != "item/started"@.len());
}

/// The member `key` of an object with entries `e` after the model choice:
/// the chosen name for `model`, the entry's value otherwise.
proof fn lemma_model_member(e: Seq<(Seq<char>, JsonView)>, model: Option<Seq<char>>, key: Seq<char>)
    ensures
        key == "model"@ ==> field(with_model(JsonView::Object(e), model), key) == match model_choice(model) {
            Some(m) => Some(JsonView::Str(m)),
            None => lookup(e, key),
        },
        key != "model"@ ==> field(with_model(JsonView::Object(e), model), key) == lookup(e, key),
{
    if model_choice(model) is Some {
        apply_model_sets_member(e, model, key);
    }
}

/// Starting and resuming a thread, and starting a turn, send the chosen
/// model: when a model name is given and not blank, the parameters' `model`
/// member is the trimmed name, and without one they have no `model` member;
/// the thread, directory and policy members are as given.
pub proof fn thread_parameters_carry_the_model(
    thread_id: Seq<char>,
    cwd: Seq<char>,
    input: Seq<JsonView>,
    model: Option<Seq<char>>,
)
    ensures
        field(thread_start_view(cwd, model), "model"@) == match model_choice(model) {
            Some(m) => Some(JsonView::Str(m)),
            None => None::<JsonView>,
        },
        field(thread_resume_view(thread_id, cwd, model), "model"@) == match model_choice(model) {
            Some(m) => Some(JsonView::Str(m)),
            None => None::<JsonView>,
        },
        field(turn_start_view(thread_id, input, cwd, model), "model"@) == match model_choice(model) {
            Some(m) => Some(JsonView::Str(m)),
            None => None::<JsonView>,
        },
        field(thread_start_view(cwd, model), "cwd"@) == Some(JsonView::Str(cwd)),
        field(thread_resume_view(thread_id, cwd, model), "threadId"@) == Some(JsonView::Str(thread_id)),
        field(thread_resume_view(thread_id, cwd, model), "cwd"@) == Some(JsonView::Str(cwd)),
        field(thread_resume_view(thread_id, cwd, model), "approvalPolicy"@) == Some(JsonView::Str("never"@)),
        field(thread_resume_view(thread_id, cwd, model), "sandbox"@) == Some(
            JsonView::Str("danger-full-access"@),
        ),
        field(turn_start_view(thread_id, input, cwd, model), "threadId"@) == Some(JsonView::Str(thread_id)),
        field(turn_start_view(thread_id, input, cwd, model), "input"@) == Some(JsonView::Array(input)),
{
    reveal_strlit("model");
    reveal_strlit("cwd");
    reveal_strlit("threadId");
    reveal_strlit("approvalPolicy");
    reveal_strlit("sandbox");
    reveal_strlit("input");
    reveal_strlit("sandboxPolicy");
    reveal_with_fuel(lookup, 6);
    let start = seq![
        ("cwd"@, JsonView::Str(cwd)),
        ("approvalPolicy"@, JsonView::Str("never"@)),
        ("sandbox"@, JsonView::Str("danger-full-access"@)),
    ];
    let resume = seq![
        ("threadId"@, JsonView::Str(thread_id)),
        ("cwd"@, JsonView::Str(cwd)),
        ("approvalPolicy"@, JsonView::Str("never"@)),
        ("sandbox"@, JsonView::Str("danger-full-access"@)),
    ];
    let turn = seq![
        ("threadId"@, JsonView::Str(thread_id)),
        ("input"@, JsonView::Array(input)),
        ("cwd"@, JsonView::Str(cwd)),
        ("approvalPolicy"@, JsonView::Str("never"@)),
        ("sandboxPolicy"@, JsonView::Object(seq![("type"@, JsonView::Str("dangerFullAccess"@))])),
    ];
    lemma_model_member(start, model, "model"@);
    lemma_model_member(start, model, "cwd"@);
    lemma_model_member(resume, model, "model"@);
    lemma_model_member(resume, model, "threadId"@);
    lemma_model_member(resume, model, "cwd"@);
    lemma_model_member(resume, model, "approvalPolicy"@);
    lemma_model_member(resume, model, "sandbox"@);
    lemma_model_member(turn, model, "model"@);
    lemma_model_member(turn, model, "threadId"@);
    lemma_model_member(turn, model, "input"@);
    assert("cwd"@.len() == 3);
    assert("model"@.len() == 5);
    assert("threadId"@.len() == 8);
    assert("approvalPolicy"@.len() == 14);
    assert("sandbox"@.len() == 7);
    assert("sandboxPolicy"@.len() == 13);
    assert("input"@.len() == 5);
    assert("input"@[0] != "model"@[0]);
    assert("input"@ != "model"@);
    assert(lookup(start, "model"@) is None) by {
        assert(start.drop_first().drop_first().drop_first() =~= Seq::<(Seq<char>, JsonView)>::empty());
    }
    assert(lookup(resume, "model"@) is None) by {
        assert(resume.drop_first().drop_first().drop_first().drop_first() =~= Seq::<(Seq<char>, JsonView)>::empty());
    }
    assert(lookup(turn, "model"@) is None) by {
        assert(turn.drop_first().drop_first().drop_first().drop_first().drop_first() =~= Seq::<(Seq<char>, JsonView)>::empty());
    }
    assert(lookup(resume, "cwd"@) == Some(JsonView::Str(cwd)));
    assert(lookup(resume, "approvalPolicy"@) == Some(JsonView::Str("never"@)));
    assert(lookup(resume, "sandbox"@) == Some(JsonView::Str("danger-full-access"@)));
    assert(lookup(turn, "input"@) == Some(JsonView::Array(input)));
}

/// The model name kept for the session: trimmed, and none when blank.
pub fn normalize_model(model: Option<String>) -> (r: Option<String>)
    ensures
        opt_text(r) == model_choice(opt_text(model)),
{
    match model {
        Some(m) => {
            let v = chars_of(m.as_str());
            let t = trim_chars(&v);
            if t.len() > 0 {
                Some(string_from(&t))
            } else {
                None
            }
        },
        None => None,
    }
}

/// The port to listen on: the one asked for, or the default.
pub fn listen_port(port: Option<u16>) -> (r: u16)
    ensures
        r == match port {
            Some(p) => p,
            None => DEFAULT_PORT,
        },
{
    match port {
        Some(p) => p,
        None => DEFAULT_PORT,
    }
}

/// Parameters of `thread/start`.
pub open spec fn thread_start_view(cwd: Seq<char>, model: Option<Seq<char>>) -> JsonView {
    with_model(
        JsonView::Object(
            seq![
                ("cwd"@, JsonView::Str(cwd)),
                ("approvalPolicy"@, JsonView::Str("never"@)),
                ("sandbox"@, JsonView::Str("danger-full-access"@)),
            ],
        ),
        model,
    )
}

/// Parameters of `thread/resume`.
pub open spec fn thread_resume_view(
    thread_id: Seq<char>,
    cwd: Seq<char>,
    model: Option<Seq<char>>,
) -> JsonView {
    with_model(
        JsonView::Object(
            seq![
                ("threadId"@, JsonView::Str(thread_id)),
                ("cwd"@, JsonView::Str(cwd)),
                ("approvalPolicy"@, JsonView::Str("never"@)),
                ("sandbox"@, JsonView::Str("danger-full-access"@)),
            ],
        ),
        model,
    )
}

/// The parameters for starting a thread in `cwd` with the given model.
pub fn thread_start_params(cwd: &str, model: Option<&str>) -> (r: Json)
    ensures
        r@ == thread_start_view(cwd@, opt_str(model)),
{
    let entries = vec![
        (copy_str("cwd"), Json::text(cwd)),
        (copy_str("approvalPolicy"), Json::text("never")),
        (copy_str("sandbox"), Json::text("danger-full-access")),
    ];
    proof {
        crate::json::lemma_entry_views(entries@);
        assert(crate::json::entry_views(entries@) =~= seq![
            ("cwd"@, JsonView::Str(cwd@)),
            ("approvalPolicy"@, JsonView::Str("never"@)),
            ("sandbox"@, JsonView::Str("danger-full-access"@)),
        ]);
    }
    let mut params = Json::Object(entries);
    apply_model(&mut params, model);
    params
}

/// The parameters for resuming `thread_id` in `cwd` with the given model.
pub fn thread_resume_params(thread_id: &str, cwd: &str, model: Option<&str>) -> (r: Json)
    ensures
        r@ == thread_resume_view(thread_id@, cwd@, opt_str(model)),
{
    let entries = vec![
        (copy_str("threadId"), Json::text(thread_id)),
        (copy_str("cwd"), Json::text(cwd)),
        (copy_str("approvalPolicy"), Json::text("never")),
        (copy_str("sandbox"), Json::text("danger-full-access")),
    ];
    proof {
        crate::json::lemma_entry_views(entries@);
        assert(crate::json::entry_views(entries@) =~= seq![
            ("threadId"@, JsonView::Str(thread_id@)),
            ("cwd"@, JsonView::Str(cwd@)),
            ("approvalPolicy"@, JsonView::Str("never"@)),
            ("sandbox"@, JsonView::Str("danger-full-access"@)),
        ]);
    }
    let mut params = Json::Object(entries);
    apply_model(&mut params, model);
    params
}

/// The input item for a local image.
pub open spec fn image_item(path: Seq<char>) -> JsonView {
    JsonView::Object(seq![("type"@, JsonView::Str("localImage"@)), ("path"@, JsonView::Str(path))])
}

/// The input items of a prompt: the text, unless it is blank, then one item per image.
pub open spec fn prompt_input(text: Seq<char>, images: Seq<Seq<char>>) -> Seq<JsonView> {
    (if is_blank(text) {
        Seq::<JsonView>::empty()
    } else {
        seq![JsonView::Object(seq![("type"@, JsonView::Str("text"@)), ("text"@, JsonView::Str(text))])]
    }) + images.map_values(|p: Seq<char>| image_item(p))
}

/// Parameters of `turn/start`.
pub open spec fn turn_start_view(
    thread_id: Seq<char>,
    input: Seq<JsonView>,
    cwd: Seq<char>,
    model: Option<Seq<char>>,
) -> JsonView {
    with_model(
        JsonView::Object(
            seq![
                ("threadId"@, JsonView::Str(thread_id)),
                ("input"@, JsonView::Array(input)),
                ("cwd"@, JsonView::Str(cwd)),
                ("approvalPolicy"@, JsonView::Str("never"@)),
                ("sandboxPolicy"@, JsonView::Object(seq![("type"@, JsonView::Str("dangerFullAccess"@))])),
            ],
        ),
        model,
    )
}

pub open spec fn strings_view(v: Seq<String>) -> Seq<Seq<char>> {
    v.map_values(|s: String| s@)
}

/// The parameters for a new turn: the prompt text and images. A prompt with
/// neither text nor images is refused.
pub fn turn_start_params(
    thread_id: &str,
    text: &str,
    image_paths: &Vec<String>,
    cwd: &str,
    model: Option<&str>,
) -> (r: Result<Json, String>)
    ensures
        match r {
            Ok(params) => {
                &&& prompt_input(text@, strings_view(image_paths@)).len() > 0
                &&& params@ == turn_start_view(
                    thread_id@,
                    prompt_input(text@, strings_view(image_paths@)),
                    cwd@,
                    opt_str(model),
                )
            },
            Err(e) => {
                &&& prompt_input(text@, strings_view(image_paths@)).len() == 0
                &&& e@ == "turn/start 至少要有文字或圖片輸入"@
            },
        },
{
    let mut input: Vec<Json> = Vec::new();
    if !blank(text) {
        let entries = vec![(copy_str("type"), Json::text("text")), (copy_str("text"), Json::text(text))];
        proof {
            crate::json::lemma_entry_views(entries@);
            assert(crate::json::entry_views(entries@) =~= seq![
                ("type"@, JsonView::Str("text"@)),
                ("text"@, JsonView::Str(text@)),
            ]);
        }
        input.push(Json::Object(entries));
    }
    let ghost head = crate::json::views_of(input@);
    proof {
        crate::json::lemma_views_of(input@);
        assert(head =~= (if is_blank(text@) {
            Seq::<JsonView>::empty()
        } else {
            seq![JsonView::Object(seq![("type"@, JsonView::Str("text"@)), ("text"@, JsonView::Str(text@))])]
        }));
    }
    let mut i: usize = 0;
    while i < image_paths.len()
        invariant
            i <= image_paths.len(),
            crate::json::views_of(input@) == head + strings_view(image_paths@).take(i as int).map_values(
                |p: Seq<char>| image_item(p),
            ),
        decreases image_paths.len() - i,
    {
        let entries = vec![
            (copy_str("type"), Json::text("localImage")),
            (copy_str("path"), Json::text(image_paths[i].as_str())),
        ];
        proof {
            crate::json::lemma_entry_views(entries@);
            assert(crate::json::entry_views(entries@) =~= seq![
                ("type"@, JsonView::Str("localImage"@)),
                ("path"@, JsonView::Str(image_paths@[i as int]@)),
            ]);
        }
        let item = Json::Object(entries);
        proof {
            assert(input@.push(item).drop_last() =~= input@);
            assert(strings_view(image_paths@).take(i + 1).map_values(|p: Seq<char>| image_item(p))
                =~= strings_view(image_paths@).take(i as int).map_values(|p: Seq<char>| image_item(p)).push(
                image_item(image_paths@[i as int]@),
            ));
        }
        let ghost prev = input@;
        input.push(item);
        proof {
            assert(input@.drop_last() =~= prev);
            assert(crate::json::views_of(input@) == crate::json::views_of(prev).push(item@));
            assert(item@ == image_item(image_paths@[i as int]@));
            let m = strings_view(image_paths@).take(i as int).map_values(|p: Seq<char>| image_item(p));
            assert((head + m).push(item@) =~= head + m.push(item@));
        }
        i += 1;
    }
    proof {
        assert(strings_view(image_paths@).take(image_paths.len() as int) =~= strings_view(image_paths@));
        crate::json::lemma_views_of(input@);
    }
    if input.len() == 0 {
        return Err(copy_str("turn/start 至少要有文字或圖片輸入"));
    }
    let policy = vec![(copy_str("type"), Json::text("dangerFullAccess"))];
    proof {
        crate::json::lemma_entry_views(policy@);
        assert(crate::json::entry_views(policy@) =~= seq![("type"@, JsonView::Str("dangerFullAccess"@))]);
    }
    let ghost input_view = crate::json::views_of(input@);
    let entries = vec![
        (copy_str("threadId"), Json::text(thread_id)),
        (copy_str("input"), Json::Array(input)),
        (copy_str("cwd"), Json::text(cwd)),
        (copy_str("approvalPolicy"), Json::text("never")),
        (copy_str("sandboxPolicy"), Json::Object(policy)),
    ];
    proof {
        crate::json::lemma_entry_views(entries@);
        assert(crate::json::entry_views(entries@) =~= seq![
            ("threadId"@, JsonView::Str(thread_id@)),
            ("input"@, JsonView::Array(input_view)),
            ("cwd"@, JsonView::Str(cwd@)),
            ("approvalPolicy"@, JsonView::Str("never"@)),
            ("sandboxPolicy"@, JsonView::Object(seq![("type"@, JsonView::Str("dangerFullAccess"@))])),
        ]);
    }
    let mut params = Json::Object(entries);
    apply_model(&mut params, model);
    Ok(params)
}

/// The identifier of a started turn, or the empty text when the answer has none.
pub fn turn_id_of(result: &Json) -> (r: String)
    ensures
        r@ == text_or(as_text(field2(result@, "turn"@, "id"@)), ""@),
{
    nested_str_or(result, "turn", "id", "")
}

/// The text of the notification message `{"method", "params"}`, when the
/// socket is connected.
pub fn notification_message(method: &str, params: Json, connected: bool) -> (r: Result<String, String>)
    ensures
        match r {
            Ok(text) => connected && text@ == json_text_of(notification_message_view(method@, params@)),
            Err(e) => !connected && e@ == "WebSocket 尚未連線"@,
        },
{
    if !connected {
        return Err(copy_str("WebSocket 尚未連線"));
    }
    let entries = vec![(copy_str("method"), Json::text(method)), (copy_str("params"), params)];
    proof {
        crate::json::lemma_entry_views(entries@);
        assert(crate::json::entry_views(entries@) =~= seq![
            ("method"@, JsonView::Str(method@)),
            ("params"@, params@),
        ]);
    }
    Ok(json_text(&Json::Object(entries)))
}

/// An empty object, the parameters of `thread/list` and of `initialized`.
pub fn empty_params() -> (r: Json)
    ensures
        r@ == JsonView::Object(Seq::empty()),
{
    let entries: Vec<(String, Json)> = Vec::new();
    proof {
        crate::json::lemma_entry_views(entries@);
        assert(crate::json::entry_views(entries@) =~= Seq::<(Seq<char>, JsonView)>::empty());
    }
    Json::Object(entries)
}

/// The `initialize` parameters, which name this client.
pub open spec fn initialize_view() -> JsonView {
    JsonView::Object(
        seq![
            ("clientInfo"@, JsonView::Object(
                seq![
                    ("name"@, JsonView::Str("xiaokui_alive"@)),
                    ("version"@, JsonView::Str("0.2.0"@)),
                ],
            )),
        ],
    )
}

pub fn initialize_params() -> (r: Json)
    ensures
        r@ == initialize_view(),
{
    let info = vec![(copy_str("name"), Json::text("xiaokui_alive")), (copy_str("version"), Json::text("0.2.0"))];
    proof {
        crate::json::lemma_entry_views(info@);
        assert(crate::json::entry_views(info@) =~= seq![
            ("name"@, JsonView::Str("xiaokui_alive"@)),
            ("version"@, JsonView::Str("0.2.0"@)),
        ]);
    }
    let ghost info_view = crate::json::entry_views(info@);
    let entries = vec![(copy_str("clientInfo"), Json::Object(info))];
    proof {
        crate::json::lemma_entry_views(entries@);
        assert(crate::json::entry_views(entries@) =~= seq![("clientInfo"@, JsonView::Object(info_view))]);
    }
    Json::Object(entries)
}

/// The address the client connects to: `ws://127.0.0.1:<port>`.
pub fn ws_url(port: u16) -> (r: String)
    ensures
        r@ == "ws://127.0.0.1:"@ + decimal(port as nat),
{
    let p = decimal_string(port as u64);
    concat("ws://127.0.0.1:", p.as_str())
}

/// The arguments that start the app-server listening on `port`.
pub fn app_server_args(port: u16) -> (r: Vec<String>)
    ensures
        r.len() == 3,
        r@[0]@ == "app-server"@,
        r@[1]@ == "--listen"@,
        r@[2]@ == "ws://0.0.0.0:"@ + decimal(port as nat),
{
    let p = decimal_string(port as u64);
    vec![copy_str("app-server"), copy_str("--listen"), concat("ws://0.0.0.0:", p.as_str())]
}

/// The next step of connecting after `failed` attempts have failed.
#[derive(Debug)]
pub enum ConnectStep {
    /// Wait `delay_ms` milliseconds, then make attempt number `attempt`.
    Attempt { attempt: u64, delay_ms: u64 },
    /// Stop trying, with this error.
    GiveUp { message: String },
}

/// Attempt `k` (from 1) comes after a wait of `500 * k` milliseconds; after
/// ten failures the start fails.
pub fn next_connect_step(failed: u64) -> (r: ConnectStep)
    requires
        failed <= CONNECT_ATTEMPTS,
    ensures
        failed < CONNECT_ATTEMPTS ==> r == (ConnectStep::Attempt {
            attempt: (failed + 1) as u64,
            delay_ms: (500 * (failed + 1)) as u64,
        }),
        failed == CONNECT_ATTEMPTS ==> (r matches ConnectStep::GiveUp { message } && message@
            == "無法連線到 codex app-server WebSocket（10 次重試失敗）"@),
{
    if failed < CONNECT_ATTEMPTS {
        ConnectStep::Attempt { attempt: failed + 1, delay_ms: 500 * (failed + 1) }
    } else {
        ConnectStep::GiveUp { message: copy_str("無法連線到 codex app-server WebSocket（10 次重試失敗）") }
    }
}

/// A frame read from the app-server socket, as far as routing needs it.
#[derive(Debug)]
pub enum SocketFrame {
    Text(String),
    Close,
    Other,
    Failed,
}

/// What the socket reader does with a frame.
#[derive(Debug)]
pub enum FrameAction {
    /// Route the text as a message.
    Handle,
    /// Read on.
    Skip,
    /// Report that the process went away and stop reading.
    Exit,
}

/// Blank text and frames other than text are skipped; a close or a read
/// error ends the reader.
pub fn frame_action(frame: &SocketFrame) -> (r: FrameAction)
    ensures
        r == match frame {
            SocketFrame::Text(t) => if is_blank(t@) {
                FrameAction::Skip
            } else {
                FrameAction::Handle
            },
            SocketFrame::Close => FrameAction::Exit,
            SocketFrame::Failed => FrameAction::Exit,
            SocketFrame::Other => FrameAction::Skip,
        },
{
    match frame {
        SocketFrame::Text(t) => if blank(t.as_str()) {
            FrameAction::Skip
        } else {
            FrameAction::Handle
        },
        SocketFrame::Close => FrameAction::Exit,
        SocketFrame::Failed => FrameAction::Exit,
        SocketFrame::Other => FrameAction::Skip,
    }
}

} // verus!
