//! Following Codex session logs for Discord activity: which logs are read,
//! from which offset, and which new lines are handed on.

use vstd::prelude::*;
use vstd::string::StringSliceAdditionalSpecFns;
use vstd::utf8::is_char_boundary;
use crate::text::{chars_of, string_from, lines, lines_of, is_blank, blank, str_eq, copy_str};
use crate::activity::{DiscordActivity, activities_view, discord_lines, process_discord_lines};

verus! {

broadcast use {vstd::string::group_string_axioms, vstd::std_specs::vec::group_vec_axioms};

/// How many of the most recently modified logs are followed.
pub const FOLLOWED_LOGS: usize = 3;

/// `sorted` with `x` placed after every entry at least as recent.
pub open spec fn insert_by_time(sorted: Seq<(Seq<char>, i128)>, x: (Seq<char>, i128)) -> Seq<
    (Seq<char>, i128),
>
    decreases sorted.len(),
{
    if sorted.len() == 0 {
        seq![x]
    } else if x.1 > sorted[0].1 {
        seq![x] + sorted
    } else {
        seq![sorted[0]] + insert_by_time(sorted.drop_first(), x)
    }
}

/// The logs, most recently modified first; logs modified at the same time
/// keep their order (a stable sort).
pub open spec fn by_time(files: Seq<(Seq<char>, i128)>) -> Seq<(Seq<char>, i128)>
    decreases files.len(),
{
    if files.len() == 0 {
        Seq::empty()
    } else {
        insert_by_time(by_time(files.drop_last()), files.last())
    }
}

/// The paths of the logs followed: the three most recently modified.
pub open spec fn followed(files: Seq<(Seq<char>, i128)>) -> Seq<Seq<char>> {
    let s = by_time(files);
    let n = if s.len() < 3 { s.len() } else { 3 };
    s.take(n as int).map_values(|f: (Seq<char>, i128)| f.0)
}

pub open spec fn files_view(v: Seq<(String, i128)>) -> Seq<(Seq<char>, i128)> {
    v.map_values(|f: (String, i128)| (f.0@, f.1))
}

proof fn lemma_insert_by_time_at(sorted: Seq<(Seq<char>, i128)>, x: (Seq<char>, i128), p: int)
    requires
        0 <= p <= sorted.len(),
        forall|k: int| 0 <= k < p ==> !(x.1 > #[trigger] sorted[k].1),
        p < sorted.len() ==> x.1 > sorted[p].1,
    ensures
        insert_by_time(sorted, x) == sorted.insert(p, x),
    decreases p,
{
    if sorted.len() == 0 {
        assert(seq![x] =~= sorted.insert(p, x));
    } else if p == 0 {
        assert(seq![x] + sorted =~= sorted.insert(0, x));
    } else {
        lemma_insert_by_time_at(sorted.drop_first(), x, p - 1);
        assert(seq![sorted[0]] + sorted.drop_first().insert(p - 1, x) =~= sorted.insert(p, x));
    }
}

/// Every log is at least as recent as the ones after it.
pub open spec fn newest_first(s: Seq<(Seq<char>, i128)>) -> bool {
    forall|i: int, j: int| 0 <= i < j < s.len() ==> (#[trigger] s[i]).1 >= (#[trigger] s[j]).1
}

proof fn lemma_insert_by_time_sorted(s: Seq<(Seq<char>, i128)>, x: (Seq<char>, i128))
    requires
        newest_first(s),
    ensures
        newest_first(insert_by_time(s, x)),
        insert_by_time(s, x).to_multiset() == s.to_multiset().insert(x),
        forall|k: int|
            0 <= k < insert_by_time(s, x).len() ==> (#[trigger] insert_by_time(s, x)[k]).1 <= if s.len()
                > 0 && s[0].1 > x.1 {
                s[0].1
            } else {
                x.1
            },
    decreases s.len(),
{
    broadcast use vstd::seq_lib::group_to_multiset_ensures;

    let r = insert_by_time(s, x);
    if s.len() == 0 {
        assert(r =~= Seq::<(Seq<char>, i128)>::empty().push(x));
    } else if x.1 > s[0].1 {
        assert(r =~= s.insert(0, x));
        assert forall|i: int, j: int| 0 <= i < j < r.len() implies (#[trigger] r[i]).1 >= (#[trigger] r[j]).1 by {
            if i > 0 {
                assert(r[i] == s[i - 1] && r[j] == s[j - 1]);
            } else {
                assert(r[j] == s[j - 1]);
                if j > 1 {
                    assert(s[0].1 >= s[j - 1].1);
                }
            }
        }
        assert forall|k: int| 0 <= k < r.len() implies (#[trigger] r[k]).1 <= x.1 by {
            if k > 0 {
                assert(r[k] == s[k - 1]);
                if k > 1 {
                    assert(s[0].1 >= s[k - 1].1);
                }
            }
        }
    } else {
        let t = s.drop_first();
        assert forall|i: int, j: int| 0 <= i < j < t.len() implies (#[trigger] t[i]).1 >= (#[trigger] t[j]).1 by {
            assert(t[i] == s[i + 1] && t[j] == s[j + 1]);
        }
        lemma_insert_by_time_sorted(t, x);
        let ins = insert_by_time(t, x);
        assert(r =~= ins.insert(0, s[0]));
        assert(s =~= t.insert(0, s[0]));
        assert(r.to_multiset() =~= s.to_multiset().insert(x));
        assert forall|k: int| 0 <= k < ins.len() implies (#[trigger] ins[k]).1 <= s[0].1 by {
            if t.len() > 0 {
                assert(t[0] == s[1]);
            }
        }
        assert forall|i: int, j: int| 0 <= i < j < r.len() implies (#[trigger] r[i]).1 >= (#[trigger] r[j]).1 by {
            assert(r[j] == ins[j - 1]);
            if i > 0 {
                assert(r[i] == ins[i - 1]);
            }
        }
        assert forall|k: int| 0 <= k < r.len() implies (#[trigger] r[k]).1 <= s[0].1 by {
            if k > 0 {
                assert(r[k] == ins[k - 1]);
            }
        }
    }
}

/// The logs are arranged newest first, each exactly once: `by_time` holds
/// the same logs, ordered by modification time from the latest.
pub proof fn logs_newest_first(files: Seq<(Seq<char>, i128)>)
    ensures
        newest_first(by_time(files)),
        by_time(files).to_multiset() == files.to_multiset(),
    decreases files.len(),
{
    broadcast use vstd::seq_lib::group_to_multiset_ensures;

    if files.len() == 0 {
        assert(by_time(files).to_multiset() =~= files.to_multiset());
    } else {
        logs_newest_first(files.drop_last());
        lemma_insert_by_time_sorted(by_time(files.drop_last()), files.last());
        assert(files =~= files.drop_last().push(files.last()));
    }
}

/// The paths of the three most recently modified logs (see `followed`);
/// `files` holds each log with its modification time.
pub fn recent_files(files: &Vec<(String, i128)>) -> (r: Vec<String>)
    ensures
        r@.map_values(|s: String| s@) == followed(files_view(files@)),
{
    let ghost fv = files_view(files@);
    let mut sorted: Vec<(String, i128)> = Vec::new();
    let mut i: usize = 0;
    while i < files.len()
        invariant
            i <= files.len(),
            fv == files_view(files@),
            files_view(sorted@) == by_time(fv.take(i as int)),
        decreases files.len() - i,
    {
        let t = files[i].1;
        let mut p: usize = 0;
        while p < sorted.len() && !(t > sorted[p].1)
            invariant
                p <= sorted.len(),
                forall|k: int| 0 <= k < p ==> !(t > #[trigger] sorted@[k].1),
            decreases sorted.len() - p,
        {
            p += 1;
        }
        let ghost sv = files_view(sorted@);
        let ghost xv = (files@[i as int].0@, t);
        proof {
            assert forall|k: int| 0 <= k < p implies !(xv.1 > #[trigger] sv[k].1) by {
                assert(sv[k].1 == sorted@[k].1);
            }
            if p < sorted.len() {
                assert(sv[p as int].1 == sorted@[p as int].1);
            }
            lemma_insert_by_time_at(sv, xv, p as int);
            assert(fv.take(i + 1).drop_last() =~= fv.take(i as int));
            assert(fv.take(i + 1).last() == xv);
        }
        sorted.insert(p, (files[i].0.clone(), t));
        proof {
            assert(files_view(sorted@) =~= sv.insert(p as int, xv));
        }
        i += 1;
    }
    proof {
        assert(fv.take(files.len() as int) =~= fv);
    }
    let n = if sorted.len() < FOLLOWED_LOGS {
        sorted.len()
    } else {
        FOLLOWED_LOGS
    };
    let mut out: Vec<String> = Vec::new();
    let mut k: usize = 0;
    while k < n
        invariant
            n <= sorted.len(),
            k <= n,
            files_view(sorted@) == by_time(fv),
            out@.map_values(|s: String| s@) == files_view(sorted@).take(k as int).map_values(
                |f: (Seq<char>, i128)| f.0,
            ),
        decreases n - k,
    {
        let ghost prev = out@;
        out.push(sorted[k].0.clone());
        proof {
            assert(out@.map_values(|s: String| s@) =~= prev.map_values(|s: String| s@).push(
                sorted@[k as int].0@,
            ));
            assert(files_view(sorted@).take(k + 1).map_values(|f: (Seq<char>, i128)| f.0)
                =~= files_view(sorted@).take(k as int).map_values(|f: (Seq<char>, i128)| f.0).push(
                sorted@[k as int].0@,
            ));
        }
        k += 1;
    }
    out
}

/// What the follower remembers: the offset read up to in each log, the logs
/// that existed when it started, and whether a Discord turn is going on.
#[derive(Debug)]
pub struct WatchState {
    pub watched: Vec<(String, u64)>,
    pub preexisting: Vec<String>,
    pub in_discord_turn: bool,
}

/// The offset remembered for `path`: the first entry for it.
pub open spec fn offset_of(w: Seq<(Seq<char>, u64)>, path: Seq<char>) -> Option<u64>
    decreases w.len(),
{
    if w.len() == 0 {
        None
    } else if w[0].0 == path {
        Some(w[0].1)
    } else {
        offset_of(w.drop_first(), path)
    }
}

pub open spec fn offsets_view(v: Seq<(String, u64)>) -> Seq<(Seq<char>, u64)> {
    v.map_values(|f: (String, u64)| (f.0@, f.1))
}

pub open spec fn paths_view(v: Seq<String>) -> Seq<Seq<char>> {
    v.map_values(|s: String| s@)
}

/// Where reading of `path` starts: the remembered offset; for a log seen for
/// the first time, its current end when it existed before the follower
/// started (its old content is skipped), or its beginning when it is new.
pub open spec fn start_offset(
    w: Seq<(Seq<char>, u64)>,
    pre: Seq<Seq<char>>,
    path: Seq<char>,
    size: u64,
) -> u64 {
    match offset_of(w, path) {
        Some(o) => o,
        None => if pre.contains(path) {
            size
        } else {
            0
        },
    }
}

/// What a poll of `path`, now `size` bytes long, reads: the byte range from
/// the start offset to the end, when there is new content (`begin_read`
/// answers with the range's start).
pub open spec fn poll_read(w: Seq<(Seq<char>, u64)>, pre: Seq<Seq<char>>, path: Seq<char>, size: u64) -> Option<
    (u64, u64),
> {
    let s = start_offset(w, pre, path, size);
    if size <= s {
        None
    } else {
        Some((s, size))
    }
}

/// Where a read range starts.
pub open spec fn range_start(r: Option<(u64, u64)>) -> u64 {
    match r {
        Some((s, _)) => s,
        None => 0,
    }
}

/// Where a read range ends.
pub open spec fn range_end(r: Option<(u64, u64)>) -> u64 {
    match r {
        Some((_, e)) => e,
        None => 0,
    }
}

/// The offset remembered for `path` after the poll: the end of what was read
/// (`finish_read`), or the start offset when nothing was (`begin_read`).
pub open spec fn poll_recorded(w: Seq<(Seq<char>, u64)>, pre: Seq<Seq<char>>, path: Seq<char>, size: u64) -> u64 {
    match poll_read(w, pre, path, size) {
        Some((_, e)) => e,
        None => start_offset(w, pre, path, size),
    }
}

/// Successive polls of `path`: `ws[j]` is the remembered offsets before poll
/// `j`, which saw the log `sizes[j]` bytes long.
pub open spec fn polls_of(
    ws: Seq<Seq<(Seq<char>, u64)>>,
    pre: Seq<Seq<char>>,
    path: Seq<char>,
    sizes: Seq<u64>,
) -> bool {
    &&& ws.len() == sizes.len() + 1
    &&& forall|j: int|
        1 <= j <= sizes.len() ==> offset_of(#[trigger] ws[j], path) == Some(
            poll_recorded(ws[j - 1], pre, path, sizes[j - 1]),
        )
}

proof fn lemma_reads_end_before(
    ws: Seq<Seq<(Seq<char>, u64)>>,
    pre: Seq<Seq<char>>,
    path: Seq<char>,
    sizes: Seq<u64>,
    j: int,
)
    requires
        polls_of(ws, pre, path, sizes),
        1 <= j <= sizes.len(),
    ensures
        offset_of(ws[j], path) is Some,
        forall|i: int|
            0 <= i < j && #[trigger] poll_read(ws[i], pre, path, sizes[i]) is Some ==> range_end(
                poll_read(ws[i], pre, path, sizes[i]),
            ) <= offset_of(ws[j], path)->0,
    decreases j,
{
    assert(offset_of(ws[j], path) == Some(poll_recorded(ws[j - 1], pre, path, sizes[j - 1])));
    if j > 1 {
        lemma_reads_end_before(ws, pre, path, sizes, j - 1);
        assert(offset_of(ws[j - 1], path) == Some(poll_recorded(ws[j - 2], pre, path, sizes[j - 2])));
    }
}

/// A log's content is handed on at most once: over successive polls of one
/// log, each read starts at or after the end of every earlier read.
pub proof fn log_content_read_once(
    ws: Seq<Seq<(Seq<char>, u64)>>,
    pre: Seq<Seq<char>>,
    path: Seq<char>,
    sizes: Seq<u64>,
)
    requires
        polls_of(ws, pre, path, sizes),
    ensures
        forall|i: int, j: int|
            0 <= i < j < sizes.len() && #[trigger] poll_read(ws[i], pre, path, sizes[i]) is Some
                && #[trigger] poll_read(ws[j], pre, path, sizes[j]) is Some ==> range_end(
                poll_read(ws[i], pre, path, sizes[i]),
            ) <= range_start(poll_read(ws[j], pre, path, sizes[j])),
{
    assert forall|i: int, j: int|
        0 <= i < j < sizes.len() && #[trigger] poll_read(ws[i], pre, path, sizes[i]) is Some
            && #[trigger] poll_read(ws[j], pre, path, sizes[j]) is Some implies range_end(
            poll_read(ws[i], pre, path, sizes[i]),
        ) <= range_start(poll_read(ws[j], pre, path, sizes[j])) by {
        lemma_reads_end_before(ws, pre, path, sizes, j);
    }
}

proof fn lemma_offset_of_at(w: Seq<(Seq<char>, u64)>, path: Seq<char>, i: int)
    requires
        0 <= i <= w.len(),
        forall|j: int| 0 <= j < i ==> w[j].0 != path,
    ensures
        offset_of(w, path) == offset_of(w.skip(i), path),
    decreases i,
{
    if i > 0 {
        lemma_offset_of_at(w.drop_first(), path, i - 1);
        assert(w.drop_first().skip(i - 1) =~= w.skip(i));
    } else {
        assert(w.skip(0) =~= w);
    }
}

proof fn lemma_offset_of_update(w: Seq<(Seq<char>, u64)>, path: Seq<char>, i: int, v: u64, other: Seq<char>)
    requires
        0 <= i <= w.len(),
        forall|j: int| 0 <= j < i ==> w[j].0 != path,
        i < w.len() ==> w[i].0 == path,
    ensures
        ({
            let nw = if i < w.len() { w.update(i, (path, v)) } else { w.push((path, v)) };
            &&& offset_of(nw, path) == Some(v)
            &&& other != path ==> offset_of(nw, other) == offset_of(w, other)
        }),
    decreases i,
{
    let nw = if i < w.len() { w.update(i, (path, v)) } else { w.push((path, v)) };
    assert(nw.len() > 0);
    if i == 0 {
        assert(nw[0] == (path, v));
        if w.len() == 0 {
            assert(nw.drop_first() =~= Seq::<(Seq<char>, u64)>::empty());
        } else {
            assert(nw.drop_first() =~= w.drop_first());
            assert(w[0].0 == path);
        }
        assert(offset_of(nw, path) == Some(v));
        if other != path {
            assert(offset_of(nw, other) == offset_of(nw.drop_first(), other));
        }
    } else {
        assert forall|j: int| 0 <= j < i - 1 implies w.drop_first()[j].0 != path by {
            assert(w.drop_first()[j] == w[j + 1]);
        }
        lemma_offset_of_update(w.drop_first(), path, i - 1, v, other);
        let nd = if i - 1 < w.drop_first().len() {
            w.drop_first().update(i - 1, (path, v))
        } else {
            w.drop_first().push((path, v))
        };
        assert(nw.drop_first() =~= nd);
        assert(nw[0] == w[0]);
        assert(w[0].0 != path);
    }
}

/// Finds the entry of `path`, if any.
fn find_offset(watched: &Vec<(String, u64)>, path: &str) -> (r: usize)
    ensures
        r <= watched.len(),
        forall|j: int| 0 <= j < r ==> offsets_view(watched@)[j].0 != path@,
        r < watched.len() ==> offsets_view(watched@)[r as int].0 == path@,
{
    let mut i: usize = 0;
    while i < watched.len() && !str_eq(watched[i].0.as_str(), path)
        invariant
            i <= watched.len(),
            forall|j: int| 0 <= j < i ==> offsets_view(watched@)[j].0 != path@,
        decreases watched.len() - i,
    {
        i += 1;
    }
    i
}

/// Sets the offset of `path` to `v`.
fn set_offset(watched: &mut Vec<(String, u64)>, path: &str, v: u64)
    ensures
        offset_of(offsets_view(final(watched)@), path@) == Some(v),
        forall|other: Seq<char>|
            other != path@ ==> #[trigger] offset_of(offsets_view(final(watched)@), other) == offset_of(
                offsets_view(old(watched)@),
                other,
            ),
{
    let ghost w = offsets_view(watched@);
    let i = find_offset(watched, path);
    if i < watched.len() {
        watched.set(i, (copy_str(path), v));
        proof {
            assert(offsets_view(watched@) =~= w.update(i as int, (path@, v)));
        }
    } else {
        watched.push((copy_str(path), v));
        proof {
            assert(offsets_view(watched@) =~= w.push((path@, v)));
        }
    }
    proof {
        lemma_offset_of_update(w, path@, i as int, v, path@);
        assert forall|other: Seq<char>| other != path@ implies #[trigger] offset_of(
            offsets_view(watched@),
            other,
        ) == offset_of(w, other) by {
            lemma_offset_of_update(w, path@, i as int, v, other);
        }
    }
}

fn contains_path(paths: &Vec<String>, path: &str) -> (r: bool)
    ensures
        r == paths_view(paths@).contains(path@),
{
    let mut i: usize = 0;
    while i < paths.len()
        invariant
            i <= paths.len(),
            forall|j: int| 0 <= j < i ==> paths_view(paths@)[j] != path@,
        decreases paths.len() - i,
    {
        if str_eq(paths[i].as_str(), path) {
            assert(paths_view(paths@)[i as int] == path@);
            return true;
        }
        i += 1;
    }
    false
}

impl WatchState {
    /// A follower that skips the old content of the logs in `preexisting`.
    pub fn new(preexisting: Vec<String>) -> (s: WatchState)
        ensures
            s.watched@.len() == 0,
            s.preexisting@ == preexisting@,
            !s.in_discord_turn,
    {
        WatchState { watched: Vec::new(), preexisting, in_discord_turn: false }
    }

    /// Starts reading `path`, now `size` bytes long: the offset to read from
    /// when there is new content, nothing otherwise. The log's start offset
    /// is remembered.
    pub fn begin_read(&mut self, path: &str, size: u64) -> (r: Option<u64>)
        ensures
            ({
                let start = start_offset(
                    offsets_view(old(self).watched@),
                    paths_view(old(self).preexisting@),
                    path@,
                    size,
                );
                &&& offset_of(offsets_view(final(self).watched@), path@) == Some(start)
                &&& r == if size <= start { None::<u64> } else { Some(start) }
            }),
            r == match poll_read(offsets_view(old(self).watched@), paths_view(old(self).preexisting@), path@, size) {
                Some((s, _)) => Some(s),
                None => None::<u64>,
            },
            forall|other: Seq<char>|
                other != path@ ==> #[trigger] offset_of(offsets_view(final(self).watched@), other)
                    == offset_of(offsets_view(old(self).watched@), other),
            final(self).preexisting@ == old(self).preexisting@,
            final(self).in_discord_turn == old(self).in_discord_turn,
    {
        let ghost w = offsets_view(self.watched@);
        let i = find_offset(&self.watched, path);
        proof {
            lemma_offset_of_at(w, path@, i as int);
            if i < w.len() {
                assert(w.skip(i as int)[0] == w[i as int]);
            } else {
                assert(w.skip(i as int) =~= Seq::<(Seq<char>, u64)>::empty());
            }
        }
        let start = if i < self.watched.len() {
            self.watched[i].1
        } else {
            let first = if contains_path(&self.preexisting, path) {
                size
            } else {
                0
            };
            set_offset(&mut self.watched, path, first);
            first
        };
        if size <= start {
            None
        } else {
            Some(start)
        }
    }

    /// Records that `path` has been read up to `size`.
    pub fn finish_read(&mut self, path: &str, size: u64)
        ensures
            offset_of(offsets_view(final(self).watched@), path@) == Some(size),
            forall|other: Seq<char>|
                other != path@ ==> #[trigger] offset_of(offsets_view(final(self).watched@), other)
                    == offset_of(offsets_view(old(self).watched@), other),
            final(self).preexisting@ == old(self).preexisting@,
            final(self).in_discord_turn == old(self).in_discord_turn,
    {
        set_offset(&mut self.watched, path, size);
    }

    /// Reads what is new in `path`, which is `size` bytes long and whose
    /// content is `content`: its non-blank lines from byte `offset` on are
    /// applied, in order, to the Discord turn (see `discord_lines`), and
    /// reading up to `size` is recorded.
    pub fn read_new(&mut self, path: &str, size: u64, offset: u64, content: &str) -> (r: Vec<DiscordActivity>)
        ensures
            (final(self).in_discord_turn, activities_view(r@)) == discord_lines(
                unread_log_lines(content.spec_bytes(), offset),
                old(self).in_discord_turn,
            ),
            offset_of(offsets_view(final(self).watched@), path@) == Some(size),
            forall|other: Seq<char>|
                other != path@ ==> #[trigger] offset_of(offsets_view(final(self).watched@), other)
                    == offset_of(offsets_view(old(self).watched@), other),
            final(self).preexisting@ == old(self).preexisting@,
    {
        let read = unread_lines(content, offset);
        let ghost got = read;
        let lines = match read {
            Some(v) => v,
            None => Vec::new(),
        };
        proof {
            match got {
                Some(v) => {
                    let rest = choose|rest: Seq<char>|
                        vstd::utf8::encode_utf8(rest) == content.spec_bytes().skip(offset as int)
                            && v@.map_values(|s: String| s@) == nonblank_lines(crate::text::lines(rest));
                    vstd::utf8::encode_utf8_decode_utf8(rest);
                    assert(vstd::utf8::decode_utf8(content.spec_bytes().skip(offset as int)) == rest);
                    assert(crate::activity::texts_view(lines@) =~= v@.map_values(|s: String| s@));
                    assert(crate::activity::texts_view(lines@) == unread_log_lines(content.spec_bytes(), offset));
                },
                None => {
                    assert(crate::activity::texts_view(lines@) =~= Seq::<Seq<char>>::empty());
                    assert(crate::activity::texts_view(lines@) == unread_log_lines(content.spec_bytes(), offset));
                },
            }
        }
        let acts = process_discord_lines(&lines, &mut self.in_discord_turn);
        self.finish_read(path, size);
        acts
    }
}

/// The new lines of a log whose bytes are `bytes`, read from byte `offset`:
/// the non-blank lines of the text from there on; none when `offset` is past
/// the end or inside a character (see `unread_lines`).
pub open spec fn unread_log_lines(bytes: Seq<u8>, offset: u64) -> Seq<Seq<char>> {
    if offset <= usize::MAX && is_char_boundary(bytes, offset as int) {
        nonblank_lines(lines(vstd::utf8::decode_utf8(bytes.skip(offset as int))))
    } else {
        Seq::empty()
    }
}

/// The lines of a text that are not blank, in order.
pub open spec fn nonblank_lines(ls: Seq<Seq<char>>) -> Seq<Seq<char>>
    decreases ls.len(),
{
    if ls.len() == 0 {
        Seq::empty()
    } else {
        let rest = nonblank_lines(ls.drop_last());
        if is_blank(ls.last()) {
            rest
        } else {
            rest.push(ls.last())
        }
    }
}

/// The new lines of a log: its text from byte `offset` on, split into lines,
/// blank lines left out. Nothing when `offset` is past the end or inside a
/// character.
pub fn unread_lines(content: &str, offset: u64) -> (r: Option<Vec<String>>)
    ensures
        match r {
            Some(v) => {
                &&& offset <= usize::MAX
                &&& is_char_boundary(content.spec_bytes(), offset as int)
                &&& exists|rest: Seq<char>|
                    vstd::utf8::encode_utf8(rest) == content.spec_bytes().skip(offset as int)
                        && v@.map_values(|s: String| s@) == nonblank_lines(lines(rest))
            },
            None => offset > usize::MAX || !is_char_boundary(content.spec_bytes(), offset as int),
        },
{
    if offset > usize::MAX as u64 {
        return None;
    }
    let at = offset as usize;
    if !content.is_char_boundary(at) {
        return None;
    }
    let (_, rest) = content.split_at(at);
    let v = chars_of(rest);
    let ls = lines_of(&v);
    let ghost lv = ls@.map_values(|l: Vec<char>| l@);
    let mut out: Vec<String> = Vec::new();
    let mut i: usize = 0;
    while i < ls.len()
        invariant
            i <= ls.len(),
            lv == ls@.map_values(|l: Vec<char>| l@),
            out@.map_values(|s: String| s@) == nonblank_lines(lv.take(i as int)),
        decreases ls.len() - i,
    {
        let line = string_from(&ls[i]);
        proof {
            assert(lv.take(i + 1).drop_last() =~= lv.take(i as int));
            assert(lv.take(i + 1).last() == ls@[i as int]@);
        }
        if !blank(line.as_str()) {
            let ghost prev = out@;
            out.push(line);
            proof {
                assert(out@.map_values(|s: String| s@) =~= prev.map_values(|s: String| s@).push(
                    ls@[i as int]@,
                ));
            }
        }
        i += 1;
    }
    proof {
        assert(lv.take(ls.len() as int) =~= lv);
        assert(vstd::utf8::encode_utf8(rest@) == rest.spec_bytes());
    }
    Some(out)
}

} // verus!
