//! Codex sessions: titles taken from the first user message, the catalog of
//! session logs, the thread list shown to the user, and a thread's history.

use vstd::prelude::*;
use crate::json::{
    Json, JsonView, field, text_field, text_or, views_of, lemma_views_of, field_or_null, lookup,
    json_of_text, parse_json,
};
use crate::activity::{text_content, extract_text_content};
use crate::text::{
    is_blank, blank, lex_lt, less_than, str_eq, lemma_lex_lt_asym, lemma_lex_lt_trans, lemma_lex_lt_total,
    trim, trim_start, starts_with, contains, take_chars, lines, chars_of, string_from, trim_chars,
    trim_start_chars, starts_with_chars, contains_chars, take_chars_vec, lines_of, copy_str,
    ends_with, concat, str_contains, take_str,
};

verus! {

broadcast use {vstd::string::group_string_axioms, vstd::std_specs::vec::group_vec_axioms};

/// Whether a user message is an instruction block injected by the client
/// rather than something the user typed: it begins, after leading white
/// space, with one of the known markers.
pub open spec fn is_meta(text: Seq<char>) -> bool {
    let t = trim_start(text);
    ||| starts_with(t, "# AGENTS.md instructions"@)
    ||| starts_with(t, "# Current Workspace Directory"@)
    ||| starts_with(t, "<environment_context>"@)
    ||| starts_with(t, "<INSTRUCTIONS>"@)
    ||| starts_with(t, "<SYSTEM>"@)
}

/// Whether `text` is an injected instruction block (see `is_meta`).
pub fn is_meta_user_message(text: &str) -> (r: bool)
    ensures
        r == is_meta(text@),
{
    let v = chars_of(text);
    let t = trim_start_chars(&v);
    starts_with_chars(&t, &chars_of("# AGENTS.md instructions"))
        || starts_with_chars(&t, &chars_of("# Current Workspace Directory"))
        || starts_with_chars(&t, &chars_of("<environment_context>"))
        || starts_with_chars(&t, &chars_of("<INSTRUCTIONS>"))
        || starts_with_chars(&t, &chars_of("<SYSTEM>"))
}

/// How many characters a title keeps.
pub const TITLE_LIMIT: usize = 60;

/// Lines that end the message body of a Discord notification.
pub open spec fn ends_body(line: Seq<char>) -> bool {
    ||| starts_with(line, "請用 "@)
    ||| starts_with(line, "已經回覆過"@)
    ||| starts_with(line, "回覆時請保持"@)
}

/// The title found in the body of a Discord notification: the first
/// non-blank line after the "訊息內容：" line, unless a closing line comes first.
pub open spec fn body_title(ls: Seq<Seq<char>>, in_body: bool) -> Option<Seq<char>>
    decreases ls.len(),
{
    if ls.len() == 0 {
        None
    } else {
        let current = trim(ls[0]);
        if current == "訊息內容："@ {
            body_title(ls.drop_first(), true)
        } else if !in_body {
            body_title(ls.drop_first(), false)
        } else if current.len() == 0 {
            body_title(ls.drop_first(), true)
        } else if ends_body(current) {
            None
        } else {
            Some(take_chars(current, 60))
        }
    }
}

/// The title of a session taken from a user message: empty for blank or
/// injected messages; for a Discord notification the first line of its
/// body; otherwise the start of the trimmed message. At most 60 characters.
pub open spec fn title_of(text: Seq<char>) -> Seq<char> {
    let t = trim(text);
    if t.len() == 0 || is_meta(t) {
        Seq::empty()
    } else if contains(t, "📩 Discord 通知"@) {
        match body_title(lines(t), false) {
            Some(title) => title,
            None => take_chars(t, 60),
        }
    } else {
        take_chars(t, 60)
    }
}

proof fn lemma_body_title_skip(ls: Seq<Seq<char>>, i: int, in_body: bool, next: bool)
    requires
        0 <= i < ls.len(),
        ({
            let current = trim(ls[i]);
            if current == "訊息內容："@ {
                next
            } else if !in_body {
                !next
            } else {
                next && current.len() == 0
            }
        }),
    ensures
        body_title(ls.skip(i), in_body) == body_title(ls.skip(i + 1), next),
{
    assert(ls.skip(i).drop_first() =~= ls.skip(i + 1));
    assert(ls.skip(i)[0] == ls[i]);
}

/// The title of a session taken from a user message (see `title_of`).
#[verifier::loop_isolation(false)]
pub fn extract_title_from_user_text(text: &str) -> (r: String)
    ensures
        r@ == title_of(text@),
{
    let v = chars_of(text);
    let t = trim_chars(&v);
    let ts = string_from(&t);
    if t.len() == 0 || is_meta_user_message(ts.as_str()) {
        return String::new();
    }
    if contains_chars(&t, &chars_of("📩 Discord 通知")) {
        let ls = lines_of(&t);
        let ghost lv = ls@.map_values(|l: Vec<char>| l@);
        let marker = chars_of("訊息內容：");
        let mut in_body = false;
        let mut i: usize = 0;
        assert(lv.skip(0) =~= lv);
        loop
            invariant
                i <= ls.len(),
                lv == ls@.map_values(|l: Vec<char>| l@),
                lv == lines(t@),
                marker@ == "訊息內容："@,
                body_title(lv, false) == body_title(lv.skip(i as int), in_body),
            decreases ls.len() - i,
        {
            if i >= ls.len() {
                assert(lv.skip(i as int) =~= Seq::<Seq<char>>::empty());
                break;
            }
            let current = trim_chars(&ls[i]);
            assert(lv[i as int] == ls@[i as int]@);
            if current.len() == marker.len() && starts_with_chars(&current, &marker) {
                proof {
                    assert(current@ =~= "訊息內容："@);
                    lemma_body_title_skip(lv, i as int, in_body, true);
                }
                in_body = true;
                i += 1;
                continue;
            }
            proof {
                if current@ == "訊息內容："@ {
                    assert(current@.take(marker.len() as int) =~= current@);
                }
            }
            if !in_body {
                proof {
                    lemma_body_title_skip(lv, i as int, in_body, false);
                }
                i += 1;
                continue;
            }
            if current.len() == 0 {
                proof {
                    lemma_body_title_skip(lv, i as int, in_body, true);
                }
                i += 1;
                continue;
            }
            proof {
                assert(lv.skip(i as int)[0] == lv[i as int]);
                assert(lv.skip(i as int).len() > 0);
                assert(trim(lv[i as int]) == current@);
            }
            if starts_with_chars(&current, &chars_of("請用 ")) || starts_with_chars(
                &current,
                &chars_of("已經回覆過"),
            ) || starts_with_chars(&current, &chars_of("回覆時請保持")) {
                break;
            }
            let title = take_chars_vec(&current, TITLE_LIMIT);
            return string_from(&title);
        }
    }
    let title = take_chars_vec(&t, TITLE_LIMIT);
    string_from(&title)
}

/// A title never holds more than 60 characters, and blank or injected
/// messages give none.
pub proof fn title_bounded(text: Seq<char>)
    ensures
        title_of(text).len() <= 60,
        trim(text).len() == 0 ==> title_of(text).len() == 0,
        is_meta(trim(text)) ==> title_of(text).len() == 0,
{
    lemma_body_title_bounded(lines(trim(text)), false);
}

proof fn lemma_body_title_bounded(ls: Seq<Seq<char>>, in_body: bool)
    ensures
        body_title(ls, in_body) matches Some(t) ==> t.len() <= 60,
    decreases ls.len(),
{
    if ls.len() > 0 {
        lemma_body_title_bounded(ls.drop_first(), true);
        lemma_body_title_bounded(ls.drop_first(), false);
    }
}

/// Renders an instant as RFC 3339 UTC text with milliseconds and a `Z`
/// suffix (`chrono::DateTime::<Utc>::to_rfc3339_opts(SecondsFormat::Millis, true)`
/// of `DateTime::from_timestamp(secs, nanos)`); none when chrono cannot
/// represent the instant.
pub uninterp spec fn utc_rfc3339_millis(secs: i64, nanos: u32) -> Option<Seq<char>>;

/// Wraps `chrono::DateTime::<chrono::Utc>::from_timestamp` and
/// `to_rfc3339_opts(SecondsFormat::Millis, true)`: the text is a function of
/// the instant alone, named `utc_rfc3339_millis`.
#[verifier::external_body]
fn rfc3339_millis(secs: i64, nanos: u32) -> (r: Option<String>)
    ensures
        crate::codex::opt_text(r) == utc_rfc3339_millis(secs, nanos),
{
    match chrono::DateTime::<chrono::Utc>::from_timestamp(secs, nanos) {
        Some(dt) => Some(dt.to_rfc3339_opts(chrono::SecondsFormat::Millis, true)),
        None => None,
    }
}

/// What the catalog knows of one session log.
#[derive(Debug)]
pub struct SessionCatalogEntry {
    pub id: String,
    pub cwd: String,
    pub originator: String,
    pub modified: String,
    pub title: String,
}

pub struct CatalogView {
    pub id: Seq<char>,
    pub cwd: Seq<char>,
    pub originator: Seq<char>,
    pub modified: Seq<char>,
    pub title: Seq<char>,
}

impl View for SessionCatalogEntry {
    type V = CatalogView;

    open spec fn view(&self) -> CatalogView {
        CatalogView {
            id: self.id@,
            cwd: self.cwd@,
            originator: self.originator@,
            modified: self.modified@,
            title: self.title@,
        }
    }
}

pub open spec fn empty_catalog_view() -> CatalogView {
    CatalogView {
        id: Seq::empty(),
        cwd: Seq::empty(),
        originator: Seq::empty(),
        modified: Seq::empty(),
        title: Seq::empty(),
    }
}

/// How many lines of a session log the catalog reads.
pub const CATALOG_LINE_LIMIT: usize = 80;

/// One record of a session log applied to what is known of it: a
/// `session_meta` record gives the identifier, directory, originator and
/// time; the first user message that yields a title gives the title.
pub open spec fn catalog_step(e: CatalogView, obj: JsonView) -> CatalogView {
    let rec_type = text_or(text_field(obj, "type"@), ""@);
    if rec_type == "session_meta"@ {
        match field(obj, "payload"@) {
            Some(p) => CatalogView {
                id: text_or(text_field(p, "id"@), ""@),
                cwd: text_or(text_field(p, "cwd"@), ""@),
                originator: text_or(text_field(p, "originator"@), ""@),
                modified: text_or(text_field(p, "timestamp"@), ""@),
                title: e.title,
            },
            None => e,
        }
    } else if rec_type != "response_item"@ || e.title.len() > 0 {
        e
    } else {
        match field(obj, "payload"@) {
            Some(p) => {
                let role = text_or(text_field(p, "role"@), ""@);
                let ptype = text_or(text_field(p, "type"@), ""@);
                if role != "user"@ || ptype != "message"@ {
                    e
                } else {
                    let t = title_of(text_content(p));
                    if t.len() > 0 {
                        CatalogView { title: t, ..e }
                    } else {
                        e
                    }
                }
            },
            None => e,
        }
    }
}

/// The records of a log applied in order; lines that are not JSON are skipped.
pub open spec fn catalog_fold(records: Seq<Option<JsonView>>) -> CatalogView
    decreases records.len(),
{
    if records.len() == 0 {
        empty_catalog_view()
    } else {
        let prev = catalog_fold(records.drop_last());
        match records.last() {
            Some(obj) => catalog_step(prev, obj),
            None => prev,
        }
    }
}

pub open spec fn record_views(lines: Seq<Option<Json>>) -> Seq<Option<JsonView>> {
    lines.map_values(|o: Option<Json>| match o {
        Some(j) => Some(j@),
        None => None,
    })
}

/// The first `n` records (all of them when there are fewer).
pub open spec fn first_records(r: Seq<Option<JsonView>>, n: nat) -> Seq<Option<JsonView>> {
    if r.len() <= n {
        r
    } else {
        r.take(n as int)
    }
}

fn catalog_step_exec(e: SessionCatalogEntry, obj: &Json) -> (r: SessionCatalogEntry)
    ensures
        r@ == catalog_step(e@, obj@),
{
    let rec_type = obj.get_str_or("type", "");
    if crate::text::str_eq(rec_type.as_str(), "session_meta") {
        match obj.get("payload") {
            Some(p) => SessionCatalogEntry {
                id: p.get_str_or("id", ""),
                cwd: p.get_str_or("cwd", ""),
                originator: p.get_str_or("originator", ""),
                modified: p.get_str_or("timestamp", ""),
                title: e.title,
            },
            None => e,
        }
    } else if !crate::text::str_eq(rec_type.as_str(), "response_item") || !e.title.as_str().is_empty() {
        e
    } else {
        match obj.get("payload") {
            Some(p) => {
                let role = p.get_str_or("role", "");
                let ptype = p.get_str_or("type", "");
                if !crate::text::str_eq(role.as_str(), "user") || !crate::text::str_eq(
                    ptype.as_str(),
                    "message",
                ) {
                    e
                } else {
                    let text = extract_text_content(p);
                    let t = extract_title_from_user_text(text.as_str());
                    if !t.as_str().is_empty() {
                        SessionCatalogEntry { title: t, ..e }
                    } else {
                        e
                    }
                }
            },
            None => e,
        }
    }
}

/// Each line parsed as JSON (see `json_of_text`).
pub open spec fn parsed_lines(ls: Seq<Seq<char>>) -> Seq<Option<JsonView>> {
    ls.map_values(|l: Seq<char>| json_of_text(l))
}

/// The first `limit` lines of `content`, each parsed as JSON.
fn parse_text_lines(content: &str, limit: usize) -> (r: Vec<Option<Json>>)
    ensures
        record_views(r@) == first_records(parsed_lines(lines(content@)), limit as nat),
        lines(content@).len() <= usize::MAX,
{
    let v = chars_of(content);
    let ls = lines_of(&v);
    let ghost all = parsed_lines(lines(content@));
    proof {
        assert(ls@.map_values(|l: Vec<char>| l@).len() == ls.len());
    }
    let mut out: Vec<Option<Json>> = Vec::new();
    let mut i: usize = 0;
    while i < ls.len() && i < limit
        invariant
            i <= ls.len(),
            ls@.map_values(|l: Vec<char>| l@) == lines(content@),
            all == parsed_lines(lines(content@)),
            all.len() == ls.len(),
            i <= limit,
            record_views(out@) == all.take(i as int),
        decreases ls.len() - i,
    {
        let line = string_from(&ls[i]);
        let parsed = parse_json(line.as_str());
        let ghost prev = out@;
        out.push(parsed);
        proof {
            assert(ls@.map_values(|l: Vec<char>| l@)[i as int] == ls@[i as int]@);
            assert(record_views(out@) =~= record_views(prev).push(all[i as int]));
            assert(all.take(i + 1) =~= all.take(i as int).push(all[i as int]));
        }
        i += 1;
    }
    proof {
        if all.len() <= limit {
            assert(i == all.len());
            assert(all.take(i as int) =~= all);
            assert(first_records(all, limit as nat) == all);
        } else {
            assert(i == limit);
            assert(first_records(all, limit as nat) == all.take(limit as int));
        }
    }
    out
}

/// What the first 80 lines of a session log tell about it; `lines` holds each
/// line parsed as JSON, or nothing for a line that is not.
pub fn catalog_entry_from_lines(lines: &Vec<Option<Json>>) -> (r: SessionCatalogEntry)
    ensures
        r@ == catalog_fold(first_records(record_views(lines@), 80)),
{
    let mut e = SessionCatalogEntry {
        id: String::new(),
        cwd: String::new(),
        originator: String::new(),
        modified: String::new(),
        title: String::new(),
    };
    let n = if lines.len() < CATALOG_LINE_LIMIT {
        lines.len()
    } else {
        CATALOG_LINE_LIMIT
    };
    let ghost rv = record_views(lines@);
    let mut i: usize = 0;
    while i < n
        invariant
            n <= lines.len(),
            n == if lines.len() < 80 { lines.len() } else { 80 },
            i <= n,
            rv == record_views(lines@),
            rv.len() == lines.len(),
            e@ == catalog_fold(rv.take(i as int)),
        decreases n - i,
    {
        proof {
            assert(rv.take(i + 1).drop_last() =~= rv.take(i as int));
        }
        match &lines[i] {
            Some(obj) => {
                e = catalog_step_exec(e, obj);
            },
            None => {},
        }
        i += 1;
    }
    proof {
        if lines.len() <= 80 {
            assert(rv.take(n as int) =~= rv);
        }
    }
    e
}

/// What the first 80 lines of a session log with text `content` tell about it.
pub fn catalog_entry_from_text(content: &str) -> (r: SessionCatalogEntry)
    ensures
        r@ == catalog_fold(first_records(parsed_lines(lines(content@)), 80)),
{
    let recs = parse_text_lines(content, CATALOG_LINE_LIMIT);
    let r = catalog_entry_from_lines(&recs);
    proof {
        let p = parsed_lines(lines(content@));
        if p.len() > 80 {
            assert(first_records(p, 80).len() == 80);
        }
    }
    r
}

/// A catalog entry kept: only logs that name their session are kept; when
/// the log gives no time, the file's modification time (seconds and
/// nanoseconds since the Unix epoch) stands in, rendered as RFC 3339 text.
pub fn finish_catalog_entry(entry: SessionCatalogEntry, file_modified: Option<(i64, u32)>) -> (r:
    Option<SessionCatalogEntry>)
    ensures
        entry.id@.len() == 0 ==> r is None,
        entry.id@.len() > 0 ==> (r matches Some(e) && {
            &&& e.id@ == entry.id@
            &&& e.cwd@ == entry.cwd@
            &&& e.originator@ == entry.originator@
            &&& e.title@ == entry.title@
            &&& e.modified@ == if entry.modified@.len() > 0 {
                entry.modified@
            } else {
                match file_modified {
                    Some((secs, nanos)) => match utc_rfc3339_millis(secs, nanos) {
                        Some(t) => t,
                        None => Seq::empty(),
                    },
                    None => Seq::empty(),
                }
            }
        }),
{
    if entry.id.as_str().is_empty() {
        return None;
    }
    if !entry.modified.as_str().is_empty() {
        return Some(entry);
    }
    let modified = match file_modified {
        Some((secs, nanos)) => match rfc3339_millis(secs, nanos) {
            Some(t) => t,
            None => String::new(),
        },
        None => String::new(),
    };
    Some(SessionCatalogEntry { modified, ..entry })
}

/// The catalog entry for `id`: the first one with that identifier.
pub open spec fn find_catalog(c: Seq<CatalogView>, id: Seq<char>) -> Option<CatalogView>
    decreases c.len(),
{
    if c.len() == 0 {
        None
    } else if c[0].id == id {
        Some(c[0])
    } else {
        find_catalog(c.drop_first(), id)
    }
}

pub open spec fn catalog_views(c: Seq<SessionCatalogEntry>) -> Seq<CatalogView> {
    c.map_values(|e: SessionCatalogEntry| e@)
}

/// No two entries share an identifier.
pub open spec fn distinct_catalog(c: Seq<CatalogView>) -> bool {
    forall|i: int, j: int| 0 <= i < j < c.len() ==> c[i].id != c[j].id
}

proof fn lemma_find_catalog(c: Seq<CatalogView>, id: Seq<char>)
    ensures
        find_catalog(c, id) matches Some(e) ==> exists|i: int|
            0 <= i < c.len() && c[i] == e && c[i].id == id,
        find_catalog(c, id) is None ==> forall|i: int| 0 <= i < c.len() ==> c[i].id != id,
        forall|i: int|
            0 <= i < c.len() && c[i].id == id && (forall|j: int| 0 <= j < i ==> c[j].id != id)
                ==> find_catalog(c, id) == Some(c[i]),
    decreases c.len(),
{
    if c.len() > 0 {
        lemma_find_catalog(c.drop_first(), id);
        if c[0].id != id {
            if let Some(e) = find_catalog(c, id) {
                let i = choose|i: int|
                    0 <= i < c.drop_first().len() && c.drop_first()[i] == e && c.drop_first()[i].id
                        == id;
                assert(c[i + 1] == e);
            } else {
                assert forall|i: int| 0 <= i < c.len() implies c[i].id != id by {
                    if i > 0 {
                        assert(c.drop_first()[i - 1] == c[i]);
                    }
                }
            }
            assert forall|i: int|
                0 <= i < c.len() && c[i].id == id && (forall|j: int| 0 <= j < i ==> c[j].id != id)
                    implies find_catalog(c, id) == Some(c[i]) by {
                assert(c.drop_first()[i - 1] == c[i]);
                assert forall|j: int| 0 <= j < i - 1 implies c.drop_first()[j].id != id by {
                    assert(c.drop_first()[j] == c[j + 1]);
                }
            }
        } else {
            assert(c[0] == find_catalog(c, id)->0);
        }
    }
}

/// Adds a log's entry to the catalog; an entry for the same session is
/// replaced.
pub fn catalog_insert(catalog: &mut Vec<SessionCatalogEntry>, entry: SessionCatalogEntry)
    requires
        distinct_catalog(catalog_views(old(catalog)@)),
    ensures
        distinct_catalog(catalog_views(final(catalog)@)),
        find_catalog(catalog_views(final(catalog)@), entry.id@) == Some(entry@),
        forall|id: Seq<char>|
            id != entry.id@ ==> #[trigger] find_catalog(catalog_views(final(catalog)@), id)
                == find_catalog(catalog_views(old(catalog)@), id),
{
    let ghost old_c = catalog_views(catalog@);
    let mut i: usize = 0;
    while i < catalog.len() && !crate::text::str_eq(catalog[i].id.as_str(), entry.id.as_str())
        invariant
            i <= catalog.len(),
            catalog_views(catalog@) == old_c,
            forall|j: int| 0 <= j < i ==> old_c[j].id != entry.id@,
        decreases catalog.len() - i,
    {
        i += 1;
    }
    let ghost eid = entry.id@;
    let ghost ev = entry@;
    if i < catalog.len() {
        catalog.set(i, entry);
    } else {
        catalog.push(entry);
    }
    proof {
        let nc = catalog_views(catalog@);
        lemma_find_catalog(old_c, eid);
        lemma_find_catalog(nc, eid);
        if i < old_c.len() {
            assert(nc =~= old_c.update(i as int, ev));
        } else {
            assert(nc =~= old_c.push(ev));
        }
        assert(nc[i as int] == ev);
        assert forall|id: Seq<char>|
            id != eid implies #[trigger] find_catalog(nc, id) == find_catalog(old_c, id) by {
            lemma_find_catalog(old_c, id);
            lemma_find_catalog(nc, id);
            if let Some(e) = find_catalog(old_c, id) {
                let k = choose|k: int| 0 <= k < old_c.len() && old_c[k] == e && old_c[k].id == id;
                assert(nc[k] == old_c[k]);
                assert forall|j: int| 0 <= j < k implies nc[j].id != id by {
                    if j != i {
                        assert(nc[j] == old_c[j]);
                    }
                }
            } else {
                assert forall|j: int| 0 <= j < nc.len() implies nc[j].id != id by {
                    if j != i {
                        assert(nc[j] == old_c[j]);
                    }
                }
            }
        }
    }
}

/// One row of the thread list.
#[derive(Debug)]
pub struct SessionListEntry {
    pub session_id: String,
    pub title: String,
    pub modified: String,
    pub display_label: String,
}

pub struct ListEntryView {
    pub session_id: Seq<char>,
    pub title: Seq<char>,
    pub modified: Seq<char>,
    pub display_label: Seq<char>,
}

impl View for SessionListEntry {
    type V = ListEntryView;

    open spec fn view(&self) -> ListEntryView {
        ListEntryView {
            session_id: self.session_id@,
            title: self.title@,
            modified: self.modified@,
            display_label: self.display_label@,
        }
    }
}

pub open spec fn list_views(s: Seq<SessionListEntry>) -> Seq<ListEntryView> {
    s.map_values(|e: SessionListEntry| e@)
}

/// The title shown for a thread that has none.
pub open spec fn unnamed() -> Seq<char> {
    "(unnamed)"@
}

/// Thread list contents: identifier to (title, modification time).
pub type SessionMap = Map<Seq<char>, (Seq<char>, Seq<char>)>;

/// The row a catalog entry gives: its title, or "(unnamed)" when it has none.
pub open spec fn catalog_row(e: CatalogView) -> (Seq<char>, Seq<char>) {
    (if e.title.len() > 0 { e.title } else { unnamed() }, e.modified)
}

/// The row a thread gets when it is first listed.
pub open spec fn fresh_row(c: Seq<CatalogView>, id: Seq<char>) -> (Seq<char>, Seq<char>) {
    match find_catalog(c, id) {
        Some(e) => catalog_row(e),
        None => (unnamed(), Seq::empty()),
    }
}

/// The rows the catalog gives.
pub open spec fn catalog_rows(c: Seq<CatalogView>) -> SessionMap
    decreases c.len(),
{
    if c.len() == 0 {
        Map::empty()
    } else {
        catalog_rows(c.drop_last()).insert(c.last().id, catalog_row(c.last()))
    }
}

pub open spec fn current_row(m: SessionMap, c: Seq<CatalogView>, id: Seq<char>) -> (
    Seq<char>,
    Seq<char>,
) {
    if m.contains_key(id) {
        m[id]
    } else {
        fresh_row(c, id)
    }
}

/// A thread the app-server has loaded: listed, its non-blank name and update
/// time taking precedence.
pub open spec fn apply_loaded(m: SessionMap, c: Seq<CatalogView>, t: JsonView) -> SessionMap {
    match text_field(t, "id"@) {
        Some(id) => {
            let cur = current_row(m, c, id);
            let name = text_or(text_field(t, "name"@), ""@);
            let updated = text_or(text_field(t, "updatedAt"@), ""@);
            m.insert(
                id,
                (
                    if !is_blank(name) { name } else { cur.0 },
                    if !is_blank(updated) { updated } else { cur.1 },
                ),
            )
        },
        None => m,
    }
}

pub open spec fn apply_loaded_all(m: SessionMap, c: Seq<CatalogView>, ts: Seq<JsonView>) -> SessionMap
    decreases ts.len(),
{
    if ts.len() == 0 {
        m
    } else {
        apply_loaded(apply_loaded_all(m, c, ts.drop_last()), c, ts.last())
    }
}

/// The threads in an answer to `thread/list`.
pub open spec fn loaded_threads(result: Option<JsonView>) -> Seq<JsonView> {
    match result {
        Some(r) => match field(r, "threads"@) {
            Some(JsonView::Array(ts)) => ts,
            _ => Seq::empty(),
        },
        None => Seq::empty(),
    }
}

/// A line of the session index: it names an unnamed thread and dates an
/// undated one.
pub open spec fn apply_index(m: SessionMap, c: Seq<CatalogView>, rec: Option<JsonView>) -> SessionMap {
    match rec {
        Some(obj) => {
            let id = text_or(text_field(obj, "id"@), ""@);
            if id.len() == 0 {
                m
            } else {
                let cur = current_row(m, c, id);
                let name = text_or(text_field(obj, "thread_name"@), ""@);
                let updated = text_or(text_field(obj, "updated_at"@), ""@);
                m.insert(
                    id,
                    (
                        if cur.0 == unnamed() && !is_blank(name) { name } else { cur.0 },
                        if is_blank(cur.1) && !is_blank(updated) { updated } else { cur.1 },
                    ),
                )
            }
        },
        None => m,
    }
}

pub open spec fn apply_index_all(m: SessionMap, c: Seq<CatalogView>, recs: Seq<Option<JsonView>>) -> SessionMap
    decreases recs.len(),
{
    if recs.len() == 0 {
        m
    } else {
        apply_index(apply_index_all(m, c, recs.drop_last()), c, recs.last())
    }
}

/// The threads listed: those of the catalog, then those the app-server has
/// loaded, then those of the session index.
pub open spec fn merged_sessions(
    c: Seq<CatalogView>,
    loaded: Option<JsonView>,
    index: Seq<Option<JsonView>>,
) -> SessionMap {
    apply_index_all(apply_loaded_all(catalog_rows(c), c, loaded_threads(loaded)), c, index)
}

/// Row order: later modification first, then titles in order; rows that
/// agree on both come in the order of their identifiers.
pub open spec fn row_lt(a: ListEntryView, b: ListEntryView) -> bool {
    ||| lex_lt(b.modified, a.modified)
    ||| (a.modified == b.modified && lex_lt(a.title, b.title))
    ||| (a.modified == b.modified && a.title == b.title && lex_lt(a.session_id, b.session_id))
}

/// No row comes before an earlier one.
pub open spec fn rows_sorted(s: Seq<ListEntryView>) -> bool {
    forall|i: int, j: int| 0 <= i < j < s.len() ==> !row_lt(s[j], s[i])
}

/// The rows show exactly the threads of `m`, each once, with its title and
/// time, labelled by its identifier.
pub open spec fn rows_show(s: Seq<ListEntryView>, m: SessionMap) -> bool {
    &&& forall|i: int|
        0 <= i < s.len() ==> {
            &&& m.contains_key(#[trigger] s[i].session_id)
            &&& m[s[i].session_id] == (s[i].title, s[i].modified)
            &&& s[i].display_label == s[i].session_id
        }
    &&& forall|id: Seq<char>|
        #[trigger] m.contains_key(id) ==> exists|i: int| 0 <= i < s.len() && s[i].session_id == id
    &&& forall|i: int, j: int| 0 <= i < j < s.len() ==> s[i].session_id != s[j].session_id
}

proof fn lemma_row_lt_asym(a: ListEntryView, b: ListEntryView)
    ensures
        row_lt(a, b) ==> !row_lt(b, a),
        !row_lt(a, a),
{
    lemma_lex_lt_asym(a.modified, b.modified);
    lemma_lex_lt_asym(b.modified, a.modified);
    lemma_lex_lt_asym(a.title, b.title);
    lemma_lex_lt_asym(a.session_id, b.session_id);
    lemma_lex_lt_asym(a.modified, a.modified);
    lemma_lex_lt_asym(a.title, a.title);
    lemma_lex_lt_asym(a.session_id, a.session_id);
}

proof fn lemma_row_lt_trans(a: ListEntryView, b: ListEntryView, c: ListEntryView)
    requires
        row_lt(a, b),
        row_lt(b, c),
    ensures
        row_lt(a, c),
{
    if lex_lt(b.modified, a.modified) && lex_lt(c.modified, b.modified) {
        lemma_lex_lt_trans(c.modified, b.modified, a.modified);
    }
    lemma_lex_lt_asym(a.modified, a.modified);
    lemma_lex_lt_asym(b.modified, b.modified);
    if a.modified == b.modified && b.modified == c.modified {
        if lex_lt(a.title, b.title) && lex_lt(b.title, c.title) {
            lemma_lex_lt_trans(a.title, b.title, c.title);
        }
        lemma_lex_lt_asym(a.title, a.title);
        lemma_lex_lt_asym(b.title, b.title);
        if a.title == b.title && b.title == c.title {
            lemma_lex_lt_trans(a.session_id, b.session_id, c.session_id);
        }
    }
}

/// The row order is a strict total order on rows of different threads: of
/// two of them, exactly one comes first.
pub proof fn row_order_total(a: ListEntryView, b: ListEntryView)
    ensures
        a.session_id != b.session_id ==> row_lt(a, b) || row_lt(b, a),
        row_lt(a, b) ==> !row_lt(b, a),
        !row_lt(a, a),
{
    lemma_lex_lt_total(a.modified, b.modified);
    lemma_lex_lt_total(a.title, b.title);
    lemma_lex_lt_total(a.session_id, b.session_id);
    lemma_row_lt_asym(a, b);
}

/// In a sorted list of different threads, each row comes before every later
/// row in the row order.
pub proof fn sorted_rows_in_order(s: Seq<ListEntryView>, i: int, j: int)
    requires
        rows_sorted(s),
        0 <= i < j < s.len(),
        s[i].session_id != s[j].session_id,
    ensures
        row_lt(s[i], s[j]),
{
    row_order_total(s[i], s[j]);
}

/// Each row comes before every later one.
pub open spec fn strictly_sorted(s: Seq<ListEntryView>) -> bool {
    forall|i: int, j: int| 0 <= i < j < s.len() ==> row_lt(#[trigger] s[i], #[trigger] s[j])
}

proof fn lemma_strictly_sorted_unique(s1: Seq<ListEntryView>, s2: Seq<ListEntryView>)
    requires
        strictly_sorted(s1),
        strictly_sorted(s2),
        forall|x: ListEntryView| s1.contains(x) <==> s2.contains(x),
    ensures
        s1 == s2,
    decreases s1.len(),
{
    if s1.len() == 0 {
        if s2.len() > 0 {
            assert(s2.contains(s2[0]));
        }
        assert(s1 =~= s2);
    } else if s2.len() == 0 {
        assert(s1.contains(s1[0]));
    } else {
        assert(s1.contains(s1[0]));
        assert(s2.contains(s2[0]));
        let k = choose|k: int| 0 <= k < s2.len() && s2[k] == s1[0];
        let l = choose|l: int| 0 <= l < s1.len() && s1[l] == s2[0];
        lemma_row_lt_asym(s1[0], s2[0]);
        if k > 0 {
            assert(row_lt(s2[0], s2[k]));
            if l > 0 {
                assert(row_lt(s1[0], s1[l]));
            }
        }
        assert(s1[0] == s2[0]);
        let t1 = s1.drop_first();
        let t2 = s2.drop_first();
        assert forall|i: int, j: int| 0 <= i < j < t1.len() implies row_lt(#[trigger] t1[i], #[trigger] t1[j]) by {
            assert(t1[i] == s1[i + 1] && t1[j] == s1[j + 1]);
        }
        assert forall|i: int, j: int| 0 <= i < j < t2.len() implies row_lt(#[trigger] t2[i], #[trigger] t2[j]) by {
            assert(t2[i] == s2[i + 1] && t2[j] == s2[j + 1]);
        }
        assert forall|x: ListEntryView| t1.contains(x) <==> t2.contains(x) by {
            if t1.contains(x) {
                let i = choose|i: int| 0 <= i < t1.len() && t1[i] == x;
                assert(s1[i + 1] == x);
                assert(row_lt(s1[0], s1[i + 1]));
                lemma_row_lt_asym(x, x);
                assert(x != s1[0]);
                assert(s2.contains(x));
                let j = choose|j: int| 0 <= j < s2.len() && s2[j] == x;
                assert(j != 0);
                assert(t2[j - 1] == x);
            }
            if t2.contains(x) {
                let i = choose|i: int| 0 <= i < t2.len() && t2[i] == x;
                assert(s2[i + 1] == x);
                assert(row_lt(s2[0], s2[i + 1]));
                lemma_row_lt_asym(x, x);
                assert(x != s2[0]);
                assert(s1.contains(x));
                let j = choose|j: int| 0 <= j < s1.len() && s1[j] == x;
                assert(j != 0);
                assert(t1[j - 1] == x);
            }
        }
        lemma_strictly_sorted_unique(t1, t2);
        assert(s1 =~= seq![s1[0]] + t1);
        assert(s2 =~= seq![s2[0]] + t2);
    }
}

/// The sorted rows of a thread map are unique: two sorted lists that show
/// the same threads are the same list.
pub proof fn sorted_rows_are_unique(m: SessionMap, s1: Seq<ListEntryView>, s2: Seq<ListEntryView>)
    requires
        rows_show(s1, m),
        rows_sorted(s1),
        rows_show(s2, m),
        rows_sorted(s2),
    ensures
        s1 == s2,
{
    assert forall|i: int, j: int| 0 <= i < j < s1.len() implies row_lt(#[trigger] s1[i], #[trigger] s1[j]) by {
        sorted_rows_in_order(s1, i, j);
    }
    assert forall|i: int, j: int| 0 <= i < j < s2.len() implies row_lt(#[trigger] s2[i], #[trigger] s2[j]) by {
        sorted_rows_in_order(s2, i, j);
    }
    assert forall|x: ListEntryView| s1.contains(x) <==> s2.contains(x) by {
        if s1.contains(x) {
            let i = choose|i: int| 0 <= i < s1.len() && s1[i] == x;
            assert(m.contains_key(s1[i].session_id));
            let k = choose|k: int| 0 <= k < s2.len() && s2[k].session_id == x.session_id;
            assert(m.contains_key(s2[k].session_id));
            assert(s2[k] == x);
        }
        if s2.contains(x) {
            let i = choose|i: int| 0 <= i < s2.len() && s2[i] == x;
            assert(m.contains_key(s2[i].session_id));
            let k = choose|k: int| 0 <= k < s1.len() && s1[k].session_id == x.session_id;
            assert(m.contains_key(s1[k].session_id));
            assert(s1[k] == x);
        }
    }
    lemma_strictly_sorted_unique(s1, s2);
}

fn row_before(a: &SessionListEntry, b: &SessionListEntry) -> (r: bool)
    ensures
        r == row_lt(a@, b@),
{
    if less_than(b.modified.as_str(), a.modified.as_str()) {
        return true;
    }
    if !str_eq(a.modified.as_str(), b.modified.as_str()) {
        return false;
    }
    if less_than(a.title.as_str(), b.title.as_str()) {
        return true;
    }
    str_eq(a.title.as_str(), b.title.as_str()) && less_than(a.session_id.as_str(), b.session_id.as_str())
}

/// The index of the row for `id`, if there is one.
fn find_row(rows: &Vec<SessionListEntry>, id: &str) -> (r: Option<usize>)
    ensures
        match r {
            Some(i) => i < rows.len() && rows@[i as int]@.session_id == id@,
            None => forall|i: int| 0 <= i < rows.len() ==> rows@[i]@.session_id != id@,
        },
{
    let mut i: usize = 0;
    while i < rows.len()
        invariant
            i <= rows.len(),
            forall|j: int| 0 <= j < i ==> rows@[j]@.session_id != id@,
        decreases rows.len() - i,
    {
        if str_eq(rows[i].session_id.as_str(), id) {
            return Some(i);
        }
        i += 1;
    }
    None
}

/// Sets the row of `id`, adding it when it is not listed yet.
fn upsert_row(
    rows: &mut Vec<SessionListEntry>,
    Ghost(m): Ghost<SessionMap>,
    id: &str,
    title: String,
    modified: String,
)
    requires
        rows_show(list_views(old(rows)@), m),
    ensures
        rows_show(list_views(final(rows)@), m.insert(id@, (title@, modified@))),
{
    let ghost old_rows = list_views(rows@);
    let ghost nm = m.insert(id@, (title@, modified@));
    let row = SessionListEntry {
        session_id: copy_str(id),
        title,
        modified,
        display_label: copy_str(id),
    };
    let ghost rv = row@;
    match find_row(rows, id) {
        Some(i) => {
            rows.set(i, row);
            proof {
                let nr = list_views(rows@);
                assert(nr =~= old_rows.update(i as int, rv));
                assert forall|k: int| 0 <= k < nr.len() implies {
                    &&& nm.contains_key(#[trigger] nr[k].session_id)
                    &&& nm[nr[k].session_id] == (nr[k].title, nr[k].modified)
                    &&& nr[k].display_label == nr[k].session_id
                } by {
                    if k != i {
                        assert(nr[k] == old_rows[k]);
                        assert(old_rows[k].session_id != old_rows[i as int].session_id);
                    }
                }
                assert forall|key: Seq<char>| #[trigger] nm.contains_key(key) implies exists|k: int|
                    0 <= k < nr.len() && nr[k].session_id == key by {
                    if key == id@ {
                        assert(nr[i as int].session_id == key);
                    } else {
                        let k = choose|k: int| 0 <= k < old_rows.len() && old_rows[k].session_id == key;
                        assert(nr[k] == old_rows[k]);
                    }
                }
                assert forall|a: int, b: int| 0 <= a < b < nr.len() implies nr[a].session_id
                    != nr[b].session_id by {
                    if a != i && b != i {
                        assert(nr[a] == old_rows[a] && nr[b] == old_rows[b]);
                    } else if a == i {
                        assert(nr[b] == old_rows[b]);
                        assert(old_rows[b].session_id != old_rows[a].session_id);
                    } else {
                        assert(nr[a] == old_rows[a]);
                        assert(old_rows[a].session_id != old_rows[b].session_id);
                    }
                }
            }
        },
        None => {
            rows.push(row);
            proof {
                let nr = list_views(rows@);
                assert(nr =~= old_rows.push(rv));
                assert forall|k: int| 0 <= k < nr.len() implies {
                    &&& nm.contains_key(#[trigger] nr[k].session_id)
                    &&& nm[nr[k].session_id] == (nr[k].title, nr[k].modified)
                    &&& nr[k].display_label == nr[k].session_id
                } by {
                    if k < old_rows.len() {
                        assert(nr[k] == old_rows[k]);
                    }
                }
                assert forall|key: Seq<char>| #[trigger] nm.contains_key(key) implies exists|k: int|
                    0 <= k < nr.len() && nr[k].session_id == key by {
                    if key == id@ {
                        assert(nr[old_rows.len() as int].session_id == key);
                    } else {
                        let k = choose|k: int| 0 <= k < old_rows.len() && old_rows[k].session_id == key;
                        assert(nr[k] == old_rows[k]);
                    }
                }
                assert forall|a: int, b: int| 0 <= a < b < nr.len() implies nr[a].session_id
                    != nr[b].session_id by {
                    assert(nr[a] == old_rows[a]);
                    if b < old_rows.len() {
                        assert(nr[b] == old_rows[b]);
                    }
                }
            }
        },
    }
}

/// The title and time a catalog entry gives a new row.
fn fresh_row_exec(catalog: &Vec<SessionCatalogEntry>, id: &str) -> (r: (String, String))
    ensures
        (r.0@, r.1@) == fresh_row(catalog_views(catalog@), id@),
{
    let ghost c = catalog_views(catalog@);
    proof {
        lemma_find_catalog(c, id@);
    }
    let mut i: usize = 0;
    while i < catalog.len()
        invariant
            i <= catalog.len(),
            c == catalog_views(catalog@),
            forall|j: int| 0 <= j < i ==> c[j].id != id@,
        decreases catalog.len() - i,
    {
        if str_eq(catalog[i].id.as_str(), id) {
            assert(c[i as int] == catalog@[i as int]@);
            proof {
                lemma_find_catalog(c, id@);
            }
            let title = if catalog[i].title.as_str().is_empty() {
                copy_str("(unnamed)")
            } else {
                catalog[i].title.clone()
            };
            return (title, catalog[i].modified.clone());
        }
        i += 1;
    }
    proof {
        lemma_find_catalog(c, id@);
    }
    (copy_str("(unnamed)"), String::new())
}

/// The row `id` has now, or the one it would get.
fn current_row_exec(
    rows: &Vec<SessionListEntry>,
    Ghost(m): Ghost<SessionMap>,
    catalog: &Vec<SessionCatalogEntry>,
    id: &str,
) -> (r: (String, String))
    requires
        rows_show(list_views(rows@), m),
    ensures
        (r.0@, r.1@) == current_row(m, catalog_views(catalog@), id@),
{
    match find_row(rows, id) {
        Some(i) => {
            assert(list_views(rows@)[i as int] == rows@[i as int]@);
            (rows[i].title.clone(), rows[i].modified.clone())
        },
        None => {
            proof {
                if m.contains_key(id@) {
                    let k = choose|k: int|
                        0 <= k < list_views(rows@).len() && list_views(rows@)[k].session_id == id@;
                    assert(list_views(rows@)[k] == rows@[k]@);
                }
            }
            fresh_row_exec(catalog, id)
        },
    }
}

proof fn lemma_insert_sorted(ov: Seq<ListEntryView>, xv: ListEntryView, p: int)
    requires
        0 <= p <= ov.len(),
        rows_sorted(ov),
        forall|k: int| 0 <= k < p ==> !row_lt(xv, #[trigger] ov[k]),
        p < ov.len() ==> row_lt(xv, ov[p]),
    ensures
        rows_sorted(ov.insert(p, xv)),
{
    let nv = ov.insert(p, xv);
    assert forall|a: int, b: int| 0 <= a < b < nv.len() implies !row_lt(nv[b], nv[a]) by {
        if b < p {
            assert(nv[a] == ov[a] && nv[b] == ov[b]);
        } else if b == p {
            assert(nv[a] == ov[a]);
        } else if a > p {
            assert(nv[a] == ov[a - 1] && nv[b] == ov[b - 1]);
        } else if a == p {
            assert(nv[b] == ov[b - 1]);
            if row_lt(ov[b - 1], xv) {
                lemma_row_lt_trans(ov[b - 1], xv, ov[p]);
                if b - 1 == p {
                    lemma_row_lt_asym(ov[p], ov[p]);
                }
            }
        } else {
            assert(nv[a] == ov[a] && nv[b] == ov[b - 1]);
        }
    }
}

/// Where the rows of `ov` come from: row `k` is row `from[k]` of `orig`,
/// and row `j < taken` of `orig` is shown at position `at[j]`.
spec fn tracks(
    ov: Seq<ListEntryView>,
    orig: Seq<ListEntryView>,
    taken: int,
    from: Seq<int>,
    at: Seq<int>,
) -> bool {
    &&& from.len() == ov.len()
    &&& at.len() == taken
    &&& forall|k: int| 0 <= k < ov.len() ==> 0 <= #[trigger] from[k] < taken && ov[k] == orig[from[k]]
    &&& forall|j: int|
        0 <= j < taken ==> 0 <= #[trigger] at[j] < ov.len() && ov[at[j]].session_id
            == orig[j].session_id
    &&& forall|a: int, b: int| 0 <= a < b < ov.len() ==> ov[a].session_id != ov[b].session_id
}

spec fn shift_at(at: Seq<int>, p: int) -> Seq<int> {
    Seq::new(at.len(), |j: int| if at[j] >= p { at[j] + 1 } else { at[j] })
}

proof fn lemma_insert_tracks(
    ov: Seq<ListEntryView>,
    xv: ListEntryView,
    p: int,
    orig: Seq<ListEntryView>,
    taken: int,
    from: Seq<int>,
    at: Seq<int>,
)
    requires
        0 <= p <= ov.len(),
        0 <= taken < orig.len(),
        orig[taken] == xv,
        forall|i: int, j: int| 0 <= i < j < orig.len() ==> orig[i].session_id != orig[j].session_id,
        tracks(ov, orig, taken, from, at),
    ensures
        tracks(ov.insert(p, xv), orig, taken + 1, from.insert(p, taken), shift_at(at, p).push(p)),
{
    let nv = ov.insert(p, xv);
    let nf = from.insert(p, taken);
    let na = shift_at(at, p).push(p);
    assert forall|k: int| 0 <= k < nv.len() implies 0 <= #[trigger] nf[k] < taken + 1 && nv[k]
        == orig[nf[k]] by {
        if k < p {
            assert(nv[k] == ov[k] && nf[k] == from[k]);
        } else if k > p {
            assert(nv[k] == ov[k - 1] && nf[k] == from[k - 1]);
        }
    }
    assert forall|j: int| 0 <= j < taken + 1 implies 0 <= #[trigger] na[j] < nv.len() && nv[na[j]].session_id
        == orig[j].session_id by {
        if j < taken {
            let q = at[j];
            if q >= p {
                assert(nv[q + 1] == ov[q]);
            } else {
                assert(nv[q] == ov[q]);
            }
        }
    }
    assert forall|a: int, b: int| 0 <= a < b < nv.len() implies nv[a].session_id
        != nv[b].session_id by {
        if a != p && b != p {
            let a0 = if a < p { a } else { a - 1 };
            let b0 = if b < p { b } else { b - 1 };
            assert(nv[a] == ov[a0] && nv[b] == ov[b0]);
        } else {
            let k = if a == p { b } else { a };
            let k0 = if k < p { k } else { k - 1 };
            assert(nv[k] == ov[k0]);
            assert(ov[k0] == orig[from[k0]]);
            assert(orig[from[k0]].session_id != orig[taken].session_id);
        }
    }
}

/// Sorts the rows: later modification first, then titles in order.
#[verifier::rlimit(30)]
fn sort_rows(rows: Vec<SessionListEntry>, Ghost(m): Ghost<SessionMap>) -> (r: Vec<SessionListEntry>)
    requires
        rows_show(list_views(rows@), m),
    ensures
        rows_show(list_views(r@), m),
        rows_sorted(list_views(r@)),
{
    let ghost orig = list_views(rows@);
    let mut src = rows;
    let mut out: Vec<SessionListEntry> = Vec::new();
    let ghost mut taken: int = 0;
    let ghost mut from: Seq<int> = Seq::empty();
    let ghost mut at: Seq<int> = Seq::empty();
    while src.len() > 0
        invariant
            0 <= taken <= orig.len(),
            list_views(src@) == orig.skip(taken),
            rows_show(orig, m),
            out.len() == taken,
            rows_sorted(list_views(out@)),
            tracks(list_views(out@), orig, taken, from, at),
        decreases src.len(),
    {
        let ghost old_src = src@;
        let x = src.remove(0);
        let ghost xv = x@;
        proof {
            assert(list_views(old_src)[0] == old_src[0]@);
            assert(list_views(old_src).len() == old_src.len());
            assert(taken < orig.len());
            assert(orig.skip(taken)[0] == xv);
            assert(orig[taken] == xv);
            assert(src@ =~= old_src.subrange(1, old_src.len() as int));
            assert(list_views(src@) =~= orig.skip(taken + 1)) by {
                assert forall|k: int| 0 <= k < list_views(src@).len() implies list_views(src@)[k]
                    == orig.skip(taken + 1)[k] by {
                    assert(list_views(src@)[k] == src@[k]@);
                    assert(src@[k] == old_src[k + 1]);
                    assert(list_views(old_src)[k + 1] == orig.skip(taken)[k + 1]);
                }
            }
        }
        let mut p: usize = 0;
        while p < out.len() && !row_before(&x, &out[p])
            invariant
                p <= out.len(),
                xv == x@,
                forall|k: int| 0 <= k < p ==> !row_lt(xv, #[trigger] list_views(out@)[k]),
            decreases out.len() - p,
        {
            p += 1;
        }
        let ghost ov = list_views(out@);
        out.insert(p, x);
        proof {
            assert(list_views(out@) =~= ov.insert(p as int, xv));
            lemma_insert_sorted(ov, xv, p as int);
            lemma_insert_tracks(ov, xv, p as int, orig, taken, from, at);
            from = from.insert(p as int, taken);
            at = shift_at(at, p as int).push(p as int);
            taken = taken + 1;
        }
    }
    proof {
        let nv = list_views(out@);
        assert(taken == orig.len()) by {
            assert(orig.skip(taken).len() == 0);
        }
        assert forall|k: int| 0 <= k < nv.len() implies {
            &&& m.contains_key(#[trigger] nv[k].session_id)
            &&& m[nv[k].session_id] == (nv[k].title, nv[k].modified)
            &&& nv[k].display_label == nv[k].session_id
        } by {
            assert(nv[k] == orig[from[k]]);
        }
        assert forall|id: Seq<char>| #[trigger] m.contains_key(id) implies exists|k: int|
            0 <= k < nv.len() && nv[k].session_id == id by {
            let j = choose|j: int| 0 <= j < orig.len() && orig[j].session_id == id;
            assert(nv[at[j]].session_id == id);
        }
    }
    out
}

pub open spec fn opt_json(o: Option<&Json>) -> Option<JsonView> {
    match o {
        Some(j) => Some(j@),
        None => None,
    }
}

/// The thread list: the catalog's sessions, those the app-server has loaded
/// (`loaded` is its answer to `thread/list`, when there is one) and those of
/// the session index (`index` holds each line parsed as JSON, or nothing for a
/// line that is not), each once, later modification first, then by title,
/// then by identifier.
pub fn build_thread_list(
    catalog: &Vec<SessionCatalogEntry>,
    loaded: Option<&Json>,
    index: &Vec<Option<Json>>,
) -> (r: Vec<SessionListEntry>)
    ensures
        rows_show(
            list_views(r@),
            merged_sessions(catalog_views(catalog@), opt_json(loaded), record_views(index@)),
        ),
        rows_sorted(list_views(r@)),
{
    let ghost c = catalog_views(catalog@);
    let mut rows: Vec<SessionListEntry> = Vec::new();
    let ghost mut m: SessionMap = Map::empty();
    proof {
        assert(list_views(rows@) =~= Seq::<ListEntryView>::empty());
    }
    let mut i: usize = 0;
    while i < catalog.len()
        invariant
            i <= catalog.len(),
            c == catalog_views(catalog@),
            m == catalog_rows(c.take(i as int)),
            rows_show(list_views(rows@), m),
        decreases catalog.len() - i,
    {
        let e = &catalog[i];
        let title = if e.title.as_str().is_empty() {
            copy_str("(unnamed)")
        } else {
            e.title.clone()
        };
        upsert_row(&mut rows, Ghost(m), e.id.as_str(), title, e.modified.clone());
        proof {
            assert(c.take(i + 1).drop_last() =~= c.take(i as int));
            assert(c.take(i + 1).last() == e@);
            m = m.insert(e.id@, catalog_row(e@));
        }
        i += 1;
    }
    proof {
        assert(c.take(catalog.len() as int) =~= c);
    }
    let ghost m1 = m;
    let empty: Vec<Json> = Vec::new();
    let threads: &Vec<Json> = match loaded {
        Some(result) => match result.get("threads") {
            Some(t) => match t.as_array() {
                Some(a) => a,
                None => &empty,
            },
            None => &empty,
        },
        None => &empty,
    };
    let ghost ts = views_of(threads@);
    proof {
        lemma_views_of(threads@);
        lemma_views_of(empty@);
        assert(ts =~= loaded_threads(opt_json(loaded)));
    }
    let mut i: usize = 0;
    while i < threads.len()
        invariant
            i <= threads.len(),
            ts == views_of(threads@),
            ts.len() == threads.len(),
            forall|k: int| 0 <= k < threads.len() ==> #[trigger] ts[k] == threads@[k]@,
            c == catalog_views(catalog@),
            m == apply_loaded_all(m1, c, ts.take(i as int)),
            rows_show(list_views(rows@), m),
        decreases threads.len() - i,
    {
        let t = &threads[i];
        proof {
            assert(ts.take(i + 1).drop_last() =~= ts.take(i as int));
            assert(ts.take(i + 1).last() == t@);
        }
        if let Some(id) = t.get_str("id") {
            let cur = current_row_exec(&rows, Ghost(m), catalog, id.as_str());
            let name = t.get_str_or("name", "");
            let updated = t.get_str_or("updatedAt", "");
            let title = if !blank(name.as_str()) {
                name
            } else {
                cur.0
            };
            let modified = if !blank(updated.as_str()) {
                updated
            } else {
                cur.1
            };
            let ghost nm = m.insert(id@, (title@, modified@));
            upsert_row(&mut rows, Ghost(m), id.as_str(), title, modified);
            proof {
                m = nm;
            }
        }
        i += 1;
    }
    proof {
        assert(ts.take(threads.len() as int) =~= ts);
    }
    let ghost m2 = m;
    let ghost rv = record_views(index@);
    let mut i: usize = 0;
    while i < index.len()
        invariant
            i <= index.len(),
            rv == record_views(index@),
            rv.len() == index.len(),
            c == catalog_views(catalog@),
            m == apply_index_all(m2, c, rv.take(i as int)),
            rows_show(list_views(rows@), m),
        decreases index.len() - i,
    {
        proof {
            assert(rv.take(i + 1).drop_last() =~= rv.take(i as int));
        }
        if let Some(obj) = &index[i] {
            let id = obj.get_str_or("id", "");
            if !id.as_str().is_empty() {
                let cur = current_row_exec(&rows, Ghost(m), catalog, id.as_str());
                let name = obj.get_str_or("thread_name", "");
                let updated = obj.get_str_or("updated_at", "");
                let title = if str_eq(cur.0.as_str(), "(unnamed)") && !blank(name.as_str()) {
                    name
                } else {
                    cur.0
                };
                let modified = if blank(cur.1.as_str()) && !blank(updated.as_str()) {
                    updated
                } else {
                    cur.1
                };
                let ghost nm = m.insert(id@, (title@, modified@));
                upsert_row(&mut rows, Ghost(m), id.as_str(), title, modified);
                proof {
                    m = nm;
                }
            }
        }
        i += 1;
    }
    proof {
        assert(rv.take(index.len() as int) =~= rv);
    }
    sort_rows(rows, Ghost(m))
}

/// The rows listed as the front end reads them: `{"sessions": [{"sessionId",
/// "title", "modified", "displayLabel"}, ...]}`.
pub open spec fn row_json(e: ListEntryView) -> JsonView {
    JsonView::Object(
        seq![
            ("sessionId"@, JsonView::Str(e.session_id)),
            ("title"@, JsonView::Str(e.title)),
            ("modified"@, JsonView::Str(e.modified)),
            ("displayLabel"@, JsonView::Str(e.display_label)),
        ],
    )
}

pub fn thread_list_json(rows: &Vec<SessionListEntry>) -> (r: Json)
    ensures
        r@ == JsonView::Object(
            seq![("sessions"@, JsonView::Array(list_views(rows@).map_values(|e: ListEntryView| row_json(e))))],
        ),
{
    let mut items: Vec<Json> = Vec::new();
    let mut i: usize = 0;
    while i < rows.len()
        invariant
            i <= rows.len(),
            views_of(items@) == list_views(rows@).take(i as int).map_values(|e: ListEntryView| row_json(e)),
        decreases rows.len() - i,
    {
        let e = &rows[i];
        let entries = vec![
            (copy_str("sessionId"), Json::text(e.session_id.as_str())),
            (copy_str("title"), Json::text(e.title.as_str())),
            (copy_str("modified"), Json::text(e.modified.as_str())),
            (copy_str("displayLabel"), Json::text(e.display_label.as_str())),
        ];
        proof {
            crate::json::lemma_entry_views(entries@);
            assert(crate::json::entry_views(entries@) =~= seq![
                ("sessionId"@, JsonView::Str(e.session_id@)),
                ("title"@, JsonView::Str(e.title@)),
                ("modified"@, JsonView::Str(e.modified@)),
                ("displayLabel"@, JsonView::Str(e.display_label@)),
            ]);
        }
        let item = Json::Object(entries);
        let ghost prev = items@;
        items.push(item);
        proof {
            assert(items@.drop_last() =~= prev);
            assert(views_of(items@) == views_of(prev).push(item@));
            assert(item@ == row_json(e@));
            assert(list_views(rows@)[i as int] == e@);
            assert(list_views(rows@).take(i + 1).map_values(|e: ListEntryView| row_json(e))
                =~= list_views(rows@).take(i as int).map_values(|e: ListEntryView| row_json(e)).push(
                row_json(e@),
            ));
        }
        i += 1;
    }
    proof {
        assert(list_views(rows@).take(rows.len() as int) =~= list_views(rows@));
    }
    let ghost iv = views_of(items@);
    let entries = vec![(copy_str("sessions"), Json::Array(items))];
    proof {
        crate::json::lemma_entry_views(entries@);
        assert(crate::json::entry_views(entries@) =~= seq![("sessions"@, JsonView::Array(iv))]);
    }
    Json::Object(entries)
}

/// The thread list when the session index has text `index_text` (see
/// `build_thread_list`; each line of the index is parsed as JSON).
pub fn build_thread_list_from_index(
    catalog: &Vec<SessionCatalogEntry>,
    loaded: Option<&Json>,
    index_text: &str,
) -> (r: Vec<SessionListEntry>)
    ensures
        rows_show(
            list_views(r@),
            merged_sessions(catalog_views(catalog@), opt_json(loaded), parsed_lines(lines(index_text@))),
        ),
        rows_sorted(list_views(r@)),
{
    let index = parse_text_lines(index_text, usize::MAX);
    build_thread_list(catalog, loaded, &index)
}

/// Every catalog session, every thread the app-server has loaded and every
/// indexed session with an identifier is listed.
pub proof fn thread_list_complete(
    c: Seq<CatalogView>,
    loaded: Option<JsonView>,
    index: Seq<Option<JsonView>>,
)
    ensures
        forall|i: int|
            0 <= i < c.len() ==> merged_sessions(c, loaded, index).contains_key(#[trigger] c[i].id),
        forall|i: int|
            0 <= i < loaded_threads(loaded).len() && #[trigger] text_field(loaded_threads(loaded)[i], "id"@) is Some
                ==> merged_sessions(c, loaded, index).contains_key(
                text_field(loaded_threads(loaded)[i], "id"@)->0,
            ),
        forall|i: int|
            0 <= i < index.len() && #[trigger] index[i] is Some && text_or(
                text_field(index[i]->0, "id"@),
                ""@,
            ).len() > 0 ==> merged_sessions(c, loaded, index).contains_key(
                text_or(text_field(index[i]->0, "id"@), ""@),
            ),
{
    let ts = loaded_threads(loaded);
    let m1 = catalog_rows(c);
    let m2 = apply_loaded_all(m1, c, ts);
    lemma_catalog_rows_has(c);
    lemma_loaded_grows(m1, c, ts);
    lemma_index_grows(m2, c, index);
}

/// An answer to `thread/list` that lists no threads.
pub open spec fn no_loaded_threads() -> JsonView {
    JsonView::Object(seq![("threads"@, JsonView::Array(Seq::empty()))])
}

/// A failed `thread/list` request, or an answer without a `threads` array,
/// gives the list an answer with no threads gives: the catalog and the index
/// alone.
pub proof fn unanswered_thread_list(
    c: Seq<CatalogView>,
    answer: Option<JsonView>,
    index: Seq<Option<JsonView>>,
)
    requires
        match answer {
            Some(a) => !(field(a, "threads"@) matches Some(JsonView::Array(_))),
            None => true,
        },
    ensures
        merged_sessions(c, answer, index) == merged_sessions(c, Some(no_loaded_threads()), index),
{
    let e = seq![("threads"@, JsonView::Array(Seq::<JsonView>::empty()))];
    assert(lookup(e, "threads"@) == Some(JsonView::Array(Seq::<JsonView>::empty())));
    assert(loaded_threads(Some(no_loaded_threads())) =~= Seq::<JsonView>::empty());
    assert(loaded_threads(answer) =~= Seq::<JsonView>::empty());
}

/// The list itself: a failed `thread/list` request, or an answer without a
/// `threads` array, gives the same sorted rows as an answer with no threads.
pub proof fn unanswered_thread_list_rows(
    c: Seq<CatalogView>,
    answer: Option<JsonView>,
    index: Seq<Option<JsonView>>,
    rows: Seq<ListEntryView>,
    empty_rows: Seq<ListEntryView>,
)
    requires
        match answer {
            Some(a) => !(field(a, "threads"@) matches Some(JsonView::Array(_))),
            None => true,
        },
        rows_show(rows, merged_sessions(c, answer, index)),
        rows_sorted(rows),
        rows_show(empty_rows, merged_sessions(c, Some(no_loaded_threads()), index)),
        rows_sorted(empty_rows),
    ensures
        rows == empty_rows,
{
    unanswered_thread_list(c, answer, index);
    sorted_rows_are_unique(merged_sessions(c, answer, index), rows, empty_rows);
}

/// The session index only fills gaps: a listed thread stays listed, a title
/// other than "(unnamed)" is kept, and so is a modification time that is not
/// blank.
pub proof fn index_only_fills_gaps(
    m: SessionMap,
    c: Seq<CatalogView>,
    index: Seq<Option<JsonView>>,
    id: Seq<char>,
)
    requires
        m.contains_key(id),
    ensures
        apply_index_all(m, c, index).contains_key(id),
        m[id].0 != unnamed() ==> apply_index_all(m, c, index)[id].0 == m[id].0,
        !is_blank(m[id].1) ==> apply_index_all(m, c, index)[id].1 == m[id].1,
    decreases index.len(),
{
    if index.len() > 0 {
        index_only_fills_gaps(m, c, index.drop_last(), id);
    }
}

/// A loaded thread whose name is blank or missing keeps the title it had
/// before: its row's title is the current one (the catalog title, or
/// "(unnamed)" when it had none).
pub proof fn blank_loaded_name_keeps_title(m: SessionMap, c: Seq<CatalogView>, t: JsonView)
    requires
        text_field(t, "id"@) is Some,
        is_blank(text_or(text_field(t, "name"@), ""@)),
    ensures
        apply_loaded(m, c, t)[text_field(t, "id"@)->0].0 == current_row(m, c, text_field(t, "id"@)->0).0,
{
}

proof fn lemma_catalog_rows_at(c: Seq<CatalogView>, i: int)
    requires
        0 <= i < c.len(),
        distinct_catalog(c),
    ensures
        catalog_rows(c).contains_key(c[i].id),
        catalog_rows(c)[c[i].id] == catalog_row(c[i]),
    decreases c.len(),
{
    if i < c.len() - 1 {
        lemma_catalog_rows_at(c.drop_last(), i);
        assert(c.drop_last()[i] == c[i]);
        assert(c[i].id != c.last().id);
    }
}

proof fn lemma_blank_names_keep(m: SessionMap, c: Seq<CatalogView>, ts: Seq<JsonView>, id: Seq<char>)
    requires
        m.contains_key(id),
        forall|k: int|
            0 <= k < ts.len() && text_field(#[trigger] ts[k], "id"@) == Some(id) ==> is_blank(
                text_or(text_field(ts[k], "name"@), ""@),
            ),
    ensures
        apply_loaded_all(m, c, ts).contains_key(id),
        apply_loaded_all(m, c, ts)[id].0 == m[id].0,
    decreases ts.len(),
{
    if ts.len() > 0 {
        let ts2 = ts.drop_last();
        assert forall|k: int|
            0 <= k < ts2.len() && text_field(#[trigger] ts2[k], "id"@) == Some(id) implies is_blank(
                text_or(text_field(ts2[k], "name"@), ""@),
            ) by {
            assert(ts2[k] == ts[k]);
        }
        lemma_blank_names_keep(m, c, ts2, id);
        let t = ts.last();
        assert(t == ts[ts.len() - 1]);
    }
}

/// A catalog session with a title keeps it when the app-server lists it with
/// no name (blank or missing) and the index cannot name it (its title is not
/// "(unnamed)"), whatever else is listed.
pub proof fn catalog_title_kept_without_loaded_name(
    c: Seq<CatalogView>,
    loaded: Option<JsonView>,
    index: Seq<Option<JsonView>>,
    i: int,
)
    requires
        distinct_catalog(c),
        0 <= i < c.len(),
        c[i].title.len() > 0,
        c[i].title != unnamed(),
        forall|k: int|
            0 <= k < loaded_threads(loaded).len() && text_field(
                #[trigger] loaded_threads(loaded)[k],
                "id"@,
            ) == Some(c[i].id) ==> is_blank(text_or(text_field(loaded_threads(loaded)[k], "name"@), ""@)),
    ensures
        merged_sessions(c, loaded, index).contains_key(c[i].id),
        merged_sessions(c, loaded, index)[c[i].id].0 == c[i].title,
{
    let m1 = catalog_rows(c);
    lemma_catalog_rows_at(c, i);
    let ts = loaded_threads(loaded);
    lemma_blank_names_keep(m1, c, ts, c[i].id);
    index_only_fills_gaps(apply_loaded_all(m1, c, ts), c, index, c[i].id);
}

/// Whether a record is a user message: a `response_item` whose payload is a
/// message with the role `user`.
pub open spec fn is_user_message(obj: JsonView) -> bool {
    &&& text_or(text_field(obj, "type"@), ""@) == "response_item"@
    &&& field(obj, "payload"@) matches Some(p)
    &&& text_or(text_field(p, "role"@), ""@) == "user"@
    &&& text_or(text_field(p, "type"@), ""@) == "message"@
}

/// `rec` is a user message whose title (see `title_of`) is `title`.
pub open spec fn user_message_titled(rec: Option<JsonView>, title: Seq<char>) -> bool {
    &&& rec matches Some(obj)
    &&& is_user_message(obj)
    &&& title == title_of(text_content(field(obj, "payload"@)->0))
}

/// Only user messages title a session: any other record leaves the title as
/// it is.
pub proof fn only_user_messages_give_titles(e: CatalogView, obj: JsonView)
    requires
        !is_user_message(obj),
    ensures
        catalog_step(e, obj).title == e.title,
{
}

/// A catalog title is empty or the title of some user message of the log.
pub proof fn catalog_title_from_a_user_message(records: Seq<Option<JsonView>>)
    ensures
        catalog_fold(records).title.len() == 0 || exists|k: int|
            0 <= k < records.len() && user_message_titled(#[trigger] records[k], catalog_fold(records).title),
    decreases records.len(),
{
    if records.len() > 0 {
        let prev = records.drop_last();
        catalog_title_from_a_user_message(prev);
        let n = records.len() - 1;
        if catalog_fold(records).title.len() > 0 {
            if catalog_fold(records).title == catalog_fold(prev).title {
                let k = choose|k: int|
                    0 <= k < prev.len() && user_message_titled(#[trigger] prev[k], catalog_fold(prev).title);
                assert(records[k] == prev[k]);
            } else {
                assert(records[n] == records.last());
                let obj = records.last()->0;
                if !is_user_message(obj) {
                    only_user_messages_give_titles(catalog_fold(prev), obj);
                }
                assert(user_message_titled(records[n], catalog_fold(records).title));
            }
        }
    }
}

proof fn lemma_catalog_rows_has(c: Seq<CatalogView>)
    ensures
        forall|i: int| 0 <= i < c.len() ==> catalog_rows(c).contains_key(#[trigger] c[i].id),
    decreases c.len(),
{
    if c.len() > 0 {
        lemma_catalog_rows_has(c.drop_last());
        assert forall|i: int| 0 <= i < c.len() implies catalog_rows(c).contains_key(
            #[trigger] c[i].id,
        ) by {
            if i < c.len() - 1 {
                assert(c.drop_last()[i] == c[i]);
            }
        }
    }
}

proof fn lemma_loaded_grows(m: SessionMap, c: Seq<CatalogView>, ts: Seq<JsonView>)
    ensures
        forall|id: Seq<char>| m.contains_key(id) ==> #[trigger] apply_loaded_all(m, c, ts).contains_key(id),
        forall|i: int|
            0 <= i < ts.len() && #[trigger] text_field(ts[i], "id"@) is Some ==> apply_loaded_all(
                m,
                c,
                ts,
            ).contains_key(text_field(ts[i], "id"@)->0),
    decreases ts.len(),
{
    if ts.len() > 0 {
        lemma_loaded_grows(m, c, ts.drop_last());
        assert forall|id: Seq<char>| m.contains_key(id) implies #[trigger] apply_loaded_all(
            m,
            c,
            ts,
        ).contains_key(id) by {
            assert(apply_loaded_all(m, c, ts.drop_last()).contains_key(id));
        }
        assert forall|i: int|
            0 <= i < ts.len() && #[trigger] text_field(ts[i], "id"@) is Some implies apply_loaded_all(
                m,
                c,
                ts,
            ).contains_key(text_field(ts[i], "id"@)->0) by {
            if i < ts.len() - 1 {
                assert(ts.drop_last()[i] == ts[i]);
            }
        }
    }
}

proof fn lemma_index_grows(m: SessionMap, c: Seq<CatalogView>, recs: Seq<Option<JsonView>>)
    ensures
        forall|id: Seq<char>| m.contains_key(id) ==> #[trigger] apply_index_all(m, c, recs).contains_key(id),
        forall|i: int|
            0 <= i < recs.len() && #[trigger] recs[i] is Some && text_or(
                text_field(recs[i]->0, "id"@),
                ""@,
            ).len() > 0 ==> apply_index_all(m, c, recs).contains_key(
                text_or(text_field(recs[i]->0, "id"@), ""@),
            ),
    decreases recs.len(),
{
    if recs.len() > 0 {
        lemma_index_grows(m, c, recs.drop_last());
        assert forall|id: Seq<char>| m.contains_key(id) implies #[trigger] apply_index_all(
            m,
            c,
            recs,
        ).contains_key(id) by {
            assert(apply_index_all(m, c, recs.drop_last()).contains_key(id));
        }
        assert forall|i: int|
            0 <= i < recs.len() && #[trigger] recs[i] is Some && text_or(
                text_field(recs[i]->0, "id"@),
                ""@,
            ).len() > 0 implies apply_index_all(m, c, recs).contains_key(
            text_or(text_field(recs[i]->0, "id"@), ""@),
        ) by {
            if i < recs.len() - 1 {
                assert(recs.drop_last()[i] == recs[i]);
            }
        }
    }
}

/// How many characters of a message the history keeps.
pub const HISTORY_TEXT_LIMIT: usize = 1000;

/// The history entry a record gives: user and assistant messages with text,
/// leaving out injected instruction blocks; marked as coming from Discord
/// when the text carries "📩 Discord".
pub open spec fn history_item(obj: JsonView) -> Option<JsonView> {
    let rec_type = text_or(text_field(obj, "type"@), ""@);
    let payload = field_or_null(obj, "payload"@);
    let role = text_or(text_field(payload, "role"@), ""@);
    let ptype = text_or(text_field(payload, "type"@), ""@);
    let text = text_content(payload);
    if rec_type != "response_item"@ || ptype != "message"@ || text.len() == 0 {
        None
    } else if role == "developer"@ || (role == "user"@ && is_meta(text)) {
        None
    } else if role == "user"@ || role == "assistant"@ {
        Some(
            JsonView::Object(
                seq![
                    ("role"@, JsonView::Str(role)),
                    ("text"@, JsonView::Str(take_chars(text, 1000))),
                    ("source"@, JsonView::Str(
                        if contains(text, "📩 Discord"@) { "discord"@ } else { "gui"@ },
                    )),
                ],
            ),
        )
    } else {
        None
    }
}

/// The history entries of a log's records, in order.
pub open spec fn history_items(recs: Seq<Option<JsonView>>) -> Seq<JsonView>
    decreases recs.len(),
{
    if recs.len() == 0 {
        Seq::empty()
    } else {
        let rest = history_items(recs.drop_last());
        match recs.last() {
            Some(obj) => match history_item(obj) {
                Some(x) => rest.push(x),
                None => rest,
            },
            None => rest,
        }
    }
}

fn history_item_exec(obj: &Json) -> (r: Option<Json>)
    ensures
        opt_json_owned(r) == history_item(obj@),
{
    let rec_type = obj.get_str_or("type", "");
    let payload = obj.get_or_null("payload");
    let role = payload.get_str_or("role", "");
    let ptype = payload.get_str_or("type", "");
    let text = extract_text_content(&payload);
    if !str_eq(rec_type.as_str(), "response_item") || !str_eq(ptype.as_str(), "message")
        || text.as_str().is_empty() {
        return None;
    }
    let is_user = str_eq(role.as_str(), "user");
    if str_eq(role.as_str(), "developer") || (is_user && is_meta_user_message(text.as_str())) {
        return None;
    }
    if is_user || str_eq(role.as_str(), "assistant") {
        let source = if str_contains(text.as_str(), "📩 Discord") {
            Json::text("discord")
        } else {
            Json::text("gui")
        };
        let ghost sv = source@;
        let entries = vec![
            (copy_str("role"), Json::Str(role)),
            (copy_str("text"), Json::Str(take_str(text.as_str(), HISTORY_TEXT_LIMIT))),
            (copy_str("source"), source),
        ];
        proof {
            crate::json::lemma_entry_views(entries@);
            assert(crate::json::entry_views(entries@) =~= seq![
                ("role"@, JsonView::Str(role@)),
                ("text"@, JsonView::Str(take_chars(text@, 1000))),
                ("source"@, sv),
            ]);
        }
        Some(Json::Object(entries))
    } else {
        None
    }
}

pub open spec fn opt_json_owned(o: Option<Json>) -> Option<JsonView> {
    match o {
        Some(j) => Some(j@),
        None => None,
    }
}

/// A thread's history as the front end reads it: `{"messages": [...]}`
/// (see `history_items`); `lines` holds each line of the log parsed as
/// JSON, or nothing for a line that is not.
pub fn thread_history_json(lines: &Vec<Option<Json>>) -> (r: Json)
    ensures
        r@ == JsonView::Object(
            seq![("messages"@, JsonView::Array(history_items(record_views(lines@))))],
        ),
{
    let ghost rv = record_views(lines@);
    let mut items: Vec<Json> = Vec::new();
    let mut i: usize = 0;
    while i < lines.len()
        invariant
            i <= lines.len(),
            rv == record_views(lines@),
            rv.len() == lines.len(),
            views_of(items@) == history_items(rv.take(i as int)),
        decreases lines.len() - i,
    {
        proof {
            assert(rv.take(i + 1).drop_last() =~= rv.take(i as int));
        }
        if let Some(obj) = &lines[i] {
            if let Some(item) = history_item_exec(obj) {
                let ghost prev = items@;
                let ghost iv = item@;
                items.push(item);
                proof {
                    assert(items@.drop_last() =~= prev);
                    assert(views_of(items@) == views_of(prev).push(iv));
                }
            }
        }
        i += 1;
    }
    proof {
        assert(rv.take(lines.len() as int) =~= rv);
    }
    let ghost iv = views_of(items@);
    let entries = vec![(copy_str("messages"), Json::Array(items))];
    proof {
        crate::json::lemma_entry_views(entries@);
        assert(crate::json::entry_views(entries@) =~= seq![("messages"@, JsonView::Array(iv))]);
    }
    Json::Object(entries)
}

/// The history of a thread whose session log has text `content` (see
/// `thread_history_json`).
pub fn thread_history_from_text(content: &str) -> (r: Json)
    ensures
        r@ == JsonView::Object(
            seq![("messages"@, JsonView::Array(history_items(parsed_lines(lines(content@)))))],
        ),
{
    let recs = parse_text_lines(content, usize::MAX);
    thread_history_json(&recs)
}

/// Index of the last `.` in `name`, or -1 when there is none.
pub open spec fn last_dot(name: Seq<char>) -> int
    decreases name.len(),
{
    if name.len() == 0 {
        -1
    } else if name.last() == '.' {
        name.len() - 1
    } else {
        last_dot(name.drop_last())
    }
}

/// A file name's extension (`Path::extension`): what follows the last dot,
/// unless that dot begins the name.
pub open spec fn extension_of(name: Seq<char>) -> Option<Seq<char>> {
    let k = last_dot(name);
    if name == ".."@ || k <= 0 {
        None
    } else {
        Some(name.skip(k + 1))
    }
}

/// A file name's stem (`Path::file_stem`): the name without its extension.
pub open spec fn stem_of(name: Seq<char>) -> Seq<char> {
    let k = last_dot(name);
    if name == ".."@ || k <= 0 {
        name
    } else {
        name.take(k)
    }
}

proof fn lemma_last_dot(name: Seq<char>)
    ensures
        -1 <= last_dot(name) < name.len(),
        last_dot(name) >= 0 ==> name[last_dot(name)] == '.',
        forall|j: int| last_dot(name) < j < name.len() ==> name[j] != '.',
    decreases name.len(),
{
    if name.len() > 0 && name.last() != '.' {
        lemma_last_dot(name.drop_last());
        assert forall|j: int| last_dot(name) < j < name.len() implies name[j] != '.' by {
            if j < name.len() - 1 {
                assert(name.drop_last()[j] == name[j]);
            }
        }
    }
}

fn last_dot_exec(v: &Vec<char>) -> (r: Option<usize>)
    ensures
        match r {
            Some(k) => last_dot(v@) == k,
            None => last_dot(v@) == -1,
        },
{
    let mut j = v.len();
    assert(v@.take(v.len() as int) =~= v@);
    while j > 0 && v[j - 1] != '.'
        invariant
            j <= v.len(),
            last_dot(v@) == last_dot(v@.take(j as int)),
        decreases j,
    {
        proof {
            assert(v@.take(j as int).drop_last() =~= v@.take(j - 1));
        }
        j -= 1;
    }
    proof {
        assert(v@.take(v.len() as int) =~= v@);
    }
    if j == 0 {
        assert(v@.take(0) =~= Seq::<char>::empty());
        None
    } else {
        Some(j - 1)
    }
}

/// Whether a file name has the extension `jsonl`.
pub fn is_jsonl_file_name(name: &str) -> (r: bool)
    ensures
        r == (extension_of(name@) == Some("jsonl"@)),
{
    let v = chars_of(name);
    let dots = chars_of("..");
    proof {
        reveal_strlit("..");
        reveal_strlit("jsonl");
        lemma_last_dot(v@);
    }
    if v.len() == 2 && starts_with_chars(&v, &dots) {
        proof {
            assert(v@ =~= ".."@);
        }
        return false;
    }
    proof {
        if v@ == ".."@ {
            assert(v@.take(2) =~= v@);
        }
    }
    match last_dot_exec(&v) {
        Some(k) => {
            if k == 0 {
                return false;
            }
            let ext = slice_chars_from(&v, k + 1);
            let want = chars_of("jsonl");
            let r = ext.len() == want.len() && starts_with_chars(&ext, &want);
            proof {
                assert(extension_of(v@) == Some(v@.skip(k + 1)));
                if ext.len() == want.len() {
                    assert(ext@.take(want.len() as int) =~= ext@);
                }
            }
            r
        },
        None => false,
    }
}

fn slice_chars_from(v: &Vec<char>, from: usize) -> (r: Vec<char>)
    requires
        from <= v.len(),
    ensures
        r@ == v@.skip(from as int),
{
    let r = crate::text::slice_chars(v, from, v.len());
    assert(v@.subrange(from as int, v.len() as int) =~= v@.skip(from as int));
    r
}

/// Whether a file in the sessions tree is the log of `session_id`: a `jsonl`
/// file whose stem ends with the identifier.
pub fn session_file_matches(name: &str, session_id: &str) -> (r: bool)
    ensures
        r == (extension_of(name@) == Some("jsonl"@) && ends_with(stem_of(name@), session_id@)),
{
    if !is_jsonl_file_name(name) {
        return false;
    }
    let v = chars_of(name);
    let id = chars_of(session_id);
    proof {
        reveal_strlit("..");
        lemma_last_dot(v@);
    }
    let k = match last_dot_exec(&v) {
        Some(k) => k,
        None => {
            return false;
        },
    };
    proof {
        assert(v@ != ".."@);
        assert(stem_of(v@) == v@.take(k as int));
    }
    if id.len() > k {
        return false;
    }
    let tail = crate::text::slice_chars(&v, k - id.len(), k);
    let r = tail.len() == id.len() && starts_with_chars(&tail, &id);
    proof {
        let stem = v@.take(k as int);
        assert(stem.skip(stem.len() - id.len()) =~= tail@);
        if r {
            assert(tail@.take(id.len() as int) =~= tail@);
        }
        if ends_with(stem, id@) {
            assert(tail@.take(id.len() as int) =~= tail@);
        }
    }
    r
}

/// The error when no log is found for a thread.
pub fn missing_session_message(thread_id: &str) -> (r: String)
    ensures
        r@ == "找不到 thread "@ + thread_id@ + " 的 session 檔案"@,
{
    let a = concat("找不到 thread ", thread_id);
    concat(a.as_str(), " 的 session 檔案")
}

} // verus!
