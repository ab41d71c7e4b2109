//! The Discord bot that runs beside the app: where its runtime is found,
//! the status reported for it, and how it is launched and stopped.
//!
//! Paths are texts; joining follows `Path::join` for a relative name: the
//! platform's separator goes between the parts unless the directory already
//! ends with a separator.

use vstd::prelude::*;
use crate::disk::{FileProbe, PathProbe, probe_file, probe_path};
use crate::text::{copy_str, concat, chars_of, string_from, trim_chars, trim, decimal};

verus! {

broadcast use {vstd::string::group_string_axioms, vstd::std_specs::vec::group_vec_axioms};

/// A path separator on the platform (`/` everywhere, `\` too on Windows).
pub open spec fn is_separator(c: char, on_windows: bool) -> bool {
    c == '/' || (on_windows && c == '\\')
}

/// An ASCII letter.
pub open spec fn is_ascii_letter(c: char) -> bool {
    ('a' <= c && c <= 'z') || ('A' <= c && c <= 'Z')
}

/// A bare Windows drive, `C:` or `\\?\C:`: the path is the drive prefix alone.
pub open spec fn is_bare_drive(dir: Seq<char>) -> bool {
    ||| (dir.len() == 2 && is_ascii_letter(dir[0]) && dir[1] == ':')
    ||| (dir.len() == 6 && dir[0] == '\\' && dir[1] == '\\' && dir[2] == '?' && dir[3] == '\\'
        && is_ascii_letter(dir[4]) && dir[5] == ':')
}

/// `dir` joined with the relative `name`; on Windows a bare drive gets no
/// separator (`C:` and `x` give `C:x`).
pub open spec fn path_join(dir: Seq<char>, name: Seq<char>, on_windows: bool) -> Seq<char> {
    if dir.len() == 0 {
        name
    } else if is_separator(dir.last(), on_windows) || (on_windows && is_bare_drive(dir)) {
        dir + name
    } else {
        dir.push(if on_windows { '\\' } else { '/' }) + name
    }
}

fn ascii_letter(c: char) -> (r: bool)
    ensures
        r == is_ascii_letter(c),
{
    ('a' <= c && c <= 'z') || ('A' <= c && c <= 'Z')
}

fn bare_drive(d: &Vec<char>) -> (r: bool)
    ensures
        r == is_bare_drive(d@),
{
    if d.len() == 2 {
        ascii_letter(d[0]) && d[1] == ':'
    } else if d.len() == 6 {
        d[0] == '\\' && d[1] == '\\' && d[2] == '?' && d[3] == '\\' && ascii_letter(d[4]) && d[5] == ':'
    } else {
        false
    }
}

/// Joins the relative `name` to `dir` (see `path_join`).
pub fn join_path(dir: &str, name: &str, on_windows: bool) -> (r: String)
    ensures
        r@ == path_join(dir@, name@, on_windows),
{
    let d = chars_of(dir);
    if d.len() == 0 {
        return copy_str(name);
    }
    let last = d[d.len() - 1];
    if last == '/' || (on_windows && last == '\\') {
        return concat(dir, name);
    }
    if on_windows && bare_drive(&d) {
        return concat(dir, name);
    }
    let mut v = d;
    v.push(if on_windows { '\\' } else { '/' });
    let with_sep = string_from(&v);
    concat(with_sep.as_str(), name)
}

/// The file name of the packaged bot.
pub fn packaged_bot_name(on_windows: bool) -> (r: &'static str)
    ensures
        r@ == if on_windows { "xiaokui_bot.exe"@ } else { "xiaokui_bot"@ },
{
    if on_windows {
        "xiaokui_bot.exe"
    } else {
        "xiaokui_bot"
    }
}

/// The packaged bot inside `dir`.
pub open spec fn packaged_bot_path(dir: Seq<char>, on_windows: bool) -> Seq<char> {
    path_join(dir, if on_windows { "xiaokui_bot.exe"@ } else { "xiaokui_bot"@ }, on_windows)
}

/// The bot script inside `dir`.
pub open spec fn source_bot_path(dir: Seq<char>, on_windows: bool) -> Seq<char> {
    path_join(dir, "bot_xiaokui.py"@, on_windows)
}

/// Asks whether `dir` holds the packaged bot: whether a regular file is at
/// `packaged_bot_path(dir)`. The probe holds that path and the disk's answer.
pub fn dir_has_packaged_bot(dir: &str, on_windows: bool) -> (r: FileProbe)
    ensures
        r.path_of() == packaged_bot_path(dir@, on_windows),
{
    let path = join_path(dir, packaged_bot_name(on_windows), on_windows);
    probe_file(path.as_str())
}

/// Asks whether `dir` holds the bot script: whether anything is at
/// `source_bot_path(dir)`. The probe holds that path and the disk's answer.
pub fn dir_has_source_bot(dir: &str, on_windows: bool) -> (r: PathProbe)
    ensures
        r.path_of() == source_bot_path(dir@, on_windows),
{
    let path = join_path(dir, "bot_xiaokui.py", on_windows);
    probe_path(path.as_str())
}

/// The places searched for the bot, in order, each with its label: the
/// directory the environment names, the app's resource directory (its
/// `resources/discord-bot`, then its `discord-bot`), then the repository's
/// `src-tauri/resources/discord-bot` and `runtime/discord-bot-src`.
pub open spec fn candidates_view(
    env_override: Option<Seq<char>>,
    resource_dir: Option<Seq<char>>,
    repo_root: Seq<char>,
    w: bool,
) -> Seq<(Seq<char>, Seq<char>)> {
    (match env_override {
        Some(d) => seq![(d, "env override"@)],
        None => Seq::empty(),
    }) + (match resource_dir {
        Some(r) => seq![
            (path_join(path_join(r, "resources"@, w), "discord-bot"@, w), "release resource dir/resources"@),
            (path_join(r, "discord-bot"@, w), "legacy release bot dir"@),
        ],
        None => Seq::empty(),
    }) + seq![
        (path_join(path_join(path_join(repo_root, "src-tauri"@, w), "resources"@, w), "discord-bot"@, w), "repo resources dir"@),
        (path_join(path_join(repo_root, "runtime"@, w), "discord-bot-src"@, w), "repo source dir"@),
    ]
}

pub open spec fn pairs_view(v: Seq<(String, &'static str)>) -> Seq<(Seq<char>, Seq<char>)> {
    v.map_values(|p: (String, &'static str)| (p.0@, p.1@))
}

pub open spec fn opt_string(o: Option<String>) -> Option<Seq<char>> {
    match o {
        Some(s) => Some(s@),
        None => None,
    }
}

/// The places searched for the bot (see `candidates_view`).
pub fn discord_bot_candidates(
    env_override: Option<String>,
    resource_dir: Option<String>,
    repo_root: &str,
    on_windows: bool,
) -> (r: Vec<(String, &'static str)>)
    ensures
        pairs_view(r@) == candidates_view(
            opt_string(env_override),
            opt_string(resource_dir),
            repo_root@,
            on_windows,
        ),
{
    let w = on_windows;
    let mut out: Vec<(String, &'static str)> = Vec::new();
    let ghost first = match opt_string(env_override) {
        Some(d) => seq![(d, "env override"@)],
        None => Seq::<(Seq<char>, Seq<char>)>::empty(),
    };
    if let Some(d) = env_override {
        out.push((d, "env override"));
    }
    proof {
        assert(pairs_view(out@) =~= first);
    }
    let ghost second = match opt_string(resource_dir) {
        Some(r) => seq![
            (path_join(path_join(r, "resources"@, w), "discord-bot"@, w), "release resource dir/resources"@),
            (path_join(r, "discord-bot"@, w), "legacy release bot dir"@),
        ],
        None => Seq::<(Seq<char>, Seq<char>)>::empty(),
    };
    if let Some(r) = resource_dir {
        let res = join_path(r.as_str(), "resources", w);
        out.push((join_path(res.as_str(), "discord-bot", w), "release resource dir/resources"));
        out.push((join_path(r.as_str(), "discord-bot", w), "legacy release bot dir"));
    }
    proof {
        assert(pairs_view(out@) =~= first + second);
    }
    let tauri_dir = join_path(repo_root, "src-tauri", w);
    let res = join_path(tauri_dir.as_str(), "resources", w);
    out.push((join_path(res.as_str(), "discord-bot", w), "repo resources dir"));
    let runtime = join_path(repo_root, "runtime", w);
    out.push((join_path(runtime.as_str(), "discord-bot-src", w), "repo source dir"));
    proof {
        assert(pairs_view(out@) =~= candidates_view(
            opt_string(env_override),
            opt_string(resource_dir),
            repo_root@,
            on_windows,
        ));
    }
    out
}

/// The bot's configuration directory inside the app's data directory.
pub fn config_dir_of(app_data_dir: &str, on_windows: bool) -> (r: String)
    ensures
        r@ == path_join(app_data_dir@, "discord-bot"@, on_windows),
{
    join_path(app_data_dir, "discord-bot", on_windows)
}

/// How the bot is started.
#[derive(Debug)]
pub enum DiscordBotLaunchTarget {
    /// The script, run with `python`.
    PythonScript(String),
    /// The packaged executable.
    Executable(String),
}

/// A bot runtime that was found.
#[derive(Debug)]
pub struct DiscordBotRuntime {
    pub launch_target: DiscordBotLaunchTarget,
    pub asset_dir: String,
    pub config_dir: String,
    pub source_label: String,
}

/// The bot's status as the front end shows it.
#[derive(Debug)]
pub struct DiscordBotStatus {
    pub running: bool,
    pub owned_by_gui: bool,
    pub pid: Option<u32>,
    pub config_dir: Option<String>,
    pub env_path: Option<String>,
    pub asset_dir: Option<String>,
    pub source_label: Option<String>,
    pub launch_target: Option<String>,
}

pub struct StatusView {
    pub running: bool,
    pub owned_by_gui: bool,
    pub pid: Option<u32>,
    pub config_dir: Option<Seq<char>>,
    pub env_path: Option<Seq<char>>,
    pub asset_dir: Option<Seq<char>>,
    pub source_label: Option<Seq<char>>,
    pub launch_target: Option<Seq<char>>,
}

impl View for DiscordBotStatus {
    type V = StatusView;

    open spec fn view(&self) -> StatusView {
        StatusView {
            running: self.running,
            owned_by_gui: self.owned_by_gui,
            pid: self.pid,
            config_dir: opt_string(self.config_dir),
            env_path: opt_string(self.env_path),
            asset_dir: opt_string(self.asset_dir),
            source_label: opt_string(self.source_label),
            launch_target: opt_string(self.launch_target),
        }
    }
}

pub open spec fn target_path(t: DiscordBotLaunchTarget) -> Seq<char> {
    match t {
        DiscordBotLaunchTarget::PythonScript(p) => p@,
        DiscordBotLaunchTarget::Executable(p) => p@,
    }
}

/// The path the runtime launches.
pub fn runtime_launch_target_string(runtime: &DiscordBotRuntime) -> (r: String)
    ensures
        r@ == target_path(runtime.launch_target),
{
    match &runtime.launch_target {
        DiscordBotLaunchTarget::PythonScript(path) => path.clone(),
        DiscordBotLaunchTarget::Executable(path) => path.clone(),
    }
}

/// The environment file inside the configuration directory.
pub open spec fn env_path_of(config_dir: Seq<char>, w: bool) -> Seq<char> {
    path_join(config_dir, ".env.xiaokui"@, w)
}

/// The status of a known runtime.
pub fn runtime_status(
    runtime: &DiscordBotRuntime,
    running: bool,
    owned_by_gui: bool,
    pid: Option<u32>,
    on_windows: bool,
) -> (r: DiscordBotStatus)
    ensures
        r@ == (StatusView {
            running,
            owned_by_gui,
            pid,
            config_dir: Some(runtime.config_dir@),
            env_path: Some(env_path_of(runtime.config_dir@, on_windows)),
            asset_dir: Some(runtime.asset_dir@),
            source_label: Some(runtime.source_label@),
            launch_target: Some(target_path(runtime.launch_target)),
        }),
{
    DiscordBotStatus {
        running,
        owned_by_gui,
        pid,
        config_dir: Some(runtime.config_dir.clone()),
        env_path: Some(join_path(runtime.config_dir.as_str(), ".env.xiaokui", on_windows)),
        asset_dir: Some(runtime.asset_dir.clone()),
        source_label: Some(runtime.source_label.clone()),
        launch_target: Some(runtime_launch_target_string(runtime)),
    }
}

/// Which form of the bot a directory holds.
#[derive(Debug)]
pub enum BotKind {
    Packaged,
    Source,
}

/// Where the bot was found.
#[derive(Debug)]
pub struct BotLocation {
    pub dir: String,
    pub label: String,
    pub kind: BotKind,
}

/// What a found bot launches.
pub open spec fn location_target(dir: Seq<char>, kind: BotKind, w: bool) -> Seq<char> {
    match kind {
        BotKind::Packaged => packaged_bot_path(dir, w),
        BotKind::Source => source_bot_path(dir, w),
    }
}

/// What probing the candidates from position `i` on finds, when `probes[j]`
/// tells whether candidate `j` holds the packaged bot and whether it holds
/// the script: the first candidate holding either, the packaged bot first.
pub open spec fn first_found(
    c: Seq<(Seq<char>, Seq<char>)>,
    probes: Seq<(bool, bool)>,
    i: int,
) -> Option<(Seq<char>, Seq<char>, BotKind)>
    decreases c.len() - i,
{
    if i < 0 || i >= c.len() || i >= probes.len() {
        None
    } else if probes[i].0 {
        Some((c[i].0, c[i].1, BotKind::Packaged))
    } else if probes[i].1 {
        Some((c[i].0, c[i].1, BotKind::Source))
    } else {
        first_found(c, probes, i + 1)
    }
}

proof fn lemma_first_found_skip(c: Seq<(Seq<char>, Seq<char>)>, p: Seq<(bool, bool)>, j: int, n: int)
    requires
        0 <= j <= n,
        n <= c.len(),
        n <= p.len(),
        forall|k: int| j <= k < n ==> !(#[trigger] p[k]).0 && !p[k].1,
    ensures
        first_found(c, p, j) == first_found(c, p, n),
    decreases n - j,
{
    if j < n {
        lemma_first_found_skip(c, p, j + 1, n);
    }
}

proof fn lemma_first_found_is_candidate(c: Seq<(Seq<char>, Seq<char>)>, p: Seq<(bool, bool)>, j: int)
    requires
        0 <= j,
    ensures
        first_found(c, p, j) matches Some((d, l, k)) ==> exists|i: int|
            j <= i < c.len() && #[trigger] c[i] == (d, l),
    decreases c.len() - j,
{
    if j < c.len() && j < p.len() && !p[j].0 && !p[j].1 {
        lemma_first_found_is_candidate(c, p, j + 1);
    }
}

/// The bot's location given the probe results (see `first_found`).
pub fn first_location(candidates: &Vec<(String, &'static str)>, probes: &Vec<(bool, bool)>) -> (r:
    Option<BotLocation>)
    ensures
        location_view(r) == first_found(pairs_view(candidates@), probes@, 0),
{
    let ghost c = pairs_view(candidates@);
    let mut i: usize = 0;
    while i < candidates.len() && i < probes.len()
        invariant
            i <= candidates.len(),
            c == pairs_view(candidates@),
            first_found(c, probes@, 0) == first_found(c, probes@, i as int),
        decreases candidates.len() - i,
    {
        let (packaged, source) = probes[i];
        if packaged || source {
            let kind = if packaged {
                BotKind::Packaged
            } else {
                BotKind::Source
            };
            return Some(BotLocation { dir: candidates[i].0.clone(), label: copy_str(candidates[i].1), kind });
        }
        i += 1;
    }
    None
}

/// What the search learnt of one candidate directory: the packaged bot's
/// path and whether a file is there and, when there is none, the script's
/// path and whether anything is there.
pub struct CandidateProbe {
    pub packaged: (Seq<char>, bool),
    pub source: Option<(Seq<char>, bool)>,
}

/// The probes made of one candidate: the packaged bot and, when it is not
/// there, the script.
pub type CandidateSearch = (FileProbe, Option<PathProbe>);

/// What the probes of one candidate learnt.
pub open spec fn candidate_view(p: CandidateSearch) -> CandidateProbe {
    CandidateProbe {
        packaged: (p.0.path_of(), p.0.found_of()),
        source: match p.1 {
            Some(s) => Some((s.path_of(), s.found_of())),
            None => None,
        },
    }
}

/// What a search learnt, candidate by candidate.
pub open spec fn search_view(v: Seq<CandidateSearch>) -> Seq<CandidateProbe> {
    v.map_values(|p: CandidateSearch| candidate_view(p))
}

/// Whether the probe found a bot.
pub open spec fn probe_hit(p: CandidateProbe) -> bool {
    p.packaged.1 || (p.source matches Some(s) && s.1)
}

/// The answers of the probes, as `first_found` takes them.
pub open spec fn probe_bits(log: Seq<CandidateProbe>) -> Seq<(bool, bool)> {
    log.map_values(
        |p: CandidateProbe|
            (
                p.packaged.1,
                match p.source {
                    Some(s) => s.1,
                    None => false,
                },
            ),
    )
}

/// `p` probes the directory `dir`: a file at `packaged_bot_path(dir)`, and
/// only when there is none, anything at `source_bot_path(dir)`.
pub open spec fn probe_of(p: CandidateProbe, dir: Seq<char>, w: bool) -> bool {
    &&& p.packaged.0 == packaged_bot_path(dir, w)
    &&& if p.packaged.1 {
        p.source is None
    } else {
        p.source matches Some(s) && s.0 == source_bot_path(dir, w)
    }
}

/// `log` is a search of the candidates `c`: they are probed in order, each as
/// `probe_of` says, until one holds a bot or none is left.
pub open spec fn search_made(c: Seq<(Seq<char>, Seq<char>)>, log: Seq<CandidateProbe>, w: bool) -> bool {
    &&& log.len() <= c.len()
    &&& forall|i: int| 0 <= i < log.len() ==> probe_of(#[trigger] log[i], c[i].0, w)
    &&& forall|i: int| 0 <= i < log.len() - 1 ==> !probe_hit(#[trigger] log[i])
    &&& log.len() < c.len() ==> log.len() > 0 && probe_hit(log[log.len() - 1])
}

/// `log` agrees with a disk on which a regular file is at exactly the paths
/// where `is_file` holds and something is at exactly those where `is_present` holds.
pub open spec fn answers_from(
    log: Seq<CandidateProbe>,
    is_file: spec_fn(Seq<char>) -> bool,
    is_present: spec_fn(Seq<char>) -> bool,
) -> bool {
    forall|i: int|
        0 <= i < log.len() ==> {
            &&& (#[trigger] log[i]).packaged.1 == is_file(log[i].packaged.0)
            &&& (log[i].source matches Some(s) ==> s.1 == is_present(s.0))
        }
}

/// Two searches of the same candidates on the same disk probe the same paths
/// and get the same answers, so they find the same bot.
pub proof fn same_disk_same_search(
    c: Seq<(Seq<char>, Seq<char>)>,
    w: bool,
    is_file: spec_fn(Seq<char>) -> bool,
    is_present: spec_fn(Seq<char>) -> bool,
    log1: Seq<CandidateProbe>,
    log2: Seq<CandidateProbe>,
)
    requires
        search_made(c, log1, w),
        search_made(c, log2, w),
        answers_from(log1, is_file, is_present),
        answers_from(log2, is_file, is_present),
    ensures
        log1 == log2,
{
    assert forall|k: int| 0 <= k < log1.len() && k < log2.len() implies log1[k] == log2[k] by {
        assert(probe_of(log1[k], c[k].0, w));
        assert(probe_of(log2[k], c[k].0, w));
    }
    if log1.len() < log2.len() {
        let k = log1.len() - 1;
        assert(probe_hit(log1[k]));
        assert(log1[k] == log2[k]);
        assert(!probe_hit(log2[k]));
    }
    if log2.len() < log1.len() {
        let k = log2.len() - 1;
        assert(probe_hit(log2[k]));
        assert(log1[k] == log2[k]);
        assert(!probe_hit(log1[k]));
    }
    assert(log1 =~= log2);
}

/// Searches the candidates in order for the packaged bot or the script; the
/// first directory holding either is taken, the packaged bot first. The
/// second half is the search made: the probes of the disk, candidate by
/// candidate; the result is what their answers give.
pub fn locate_bot(candidates: &Vec<(String, &'static str)>, on_windows: bool) -> (r: (
    Option<BotLocation>,
    Vec<CandidateSearch>,
))
    ensures
        search_made(pairs_view(candidates@), search_view(r.1@), on_windows),
        location_view(r.0) == first_found(pairs_view(candidates@), probe_bits(search_view(r.1@)), 0),
        r.0 matches Some(loc) ==> exists|i: int|
            0 <= i < candidates.len() && #[trigger] candidates@[i].0@ == loc.dir@ && candidates@[i].1@
                == loc.label@,
{
    let ghost c = pairs_view(candidates@);
    let mut search: Vec<CandidateSearch> = Vec::new();
    let mut probes: Vec<(bool, bool)> = Vec::new();
    let mut i: usize = 0;
    while i < candidates.len()
        invariant_except_break
            probes.len() == i,
            forall|k: int| 0 <= k < i ==> !(#[trigger] probes@[k]).0 && !probes@[k].1,
        invariant
            i <= candidates.len(),
            c == pairs_view(candidates@),
            probe_bits(search_view(search@)) == probes@,
            search.len() == probes.len(),
            forall|k: int|
                0 <= k < search.len() ==> probe_of(#[trigger] search_view(search@)[k], c[k].0, on_windows),
        ensures
            probes.len() <= candidates.len(),
            forall|k: int| 0 <= k < probes.len() - 1 ==> !(#[trigger] probes@[k]).0 && !probes@[k].1,
            (probes.len() > 0 && (probes@[probes.len() - 1].0 || probes@[probes.len() - 1].1)) || (
            probes.len() == candidates.len() && forall|k: int|
                0 <= k < probes.len() ==> !(#[trigger] probes@[k]).0 && !probes@[k].1),
        decreases candidates.len() - i,
    {
        let dir = &candidates[i].0;
        let packaged_probe = dir_has_packaged_bot(dir.as_str(), on_windows);
        let packaged = packaged_probe.found();
        let (source, source_probe) = if packaged {
            (false, None)
        } else {
            let p = dir_has_source_bot(dir.as_str(), on_windows);
            (p.found(), Some(p))
        };
        let ghost old_search = search@;
        search.push((packaged_probe, source_probe));
        probes.push((packaged, source));
        proof {
            assert(search@ =~= old_search.push(search@[search.len() - 1]));
            assert(search_view(search@) =~= search_view(old_search).push(candidate_view(search@[search.len() - 1])));
            assert(probe_bits(search_view(search@)) =~= probes@);
            assert forall|k: int| 0 <= k < search.len() implies probe_of(
                #[trigger] search_view(search@)[k],
                c[k].0,
                on_windows,
            ) by {
                if k == search.len() - 1 {
                    assert(c[k].0 == candidates@[k].0@);
                } else {
                    assert(search_view(search@)[k] == search_view(old_search)[k]);
                }
            }
        }
        if packaged || source {
            break;
        }
        i += 1;
    }
    let r = first_location(candidates, &probes);
    proof {
        let p = probes@;
        let log = search_view(search@);
        assert forall|k: int| 0 <= k < log.len() - 1 implies !probe_hit(#[trigger] log[k]) by {
            assert(probe_bits(log)[k] == p[k]);
        }
        if p.len() > 0 && (p[p.len() - 1].0 || p[p.len() - 1].1) {
            assert(probe_bits(log)[p.len() - 1] == p[p.len() - 1]);
            lemma_first_found_skip(c, p, 0, p.len() - 1);
        } else {
            lemma_first_found_skip(c, p, 0, c.len() as int);
        }
        lemma_first_found_is_candidate(c, p, 0);
        if r is Some {
            let loc = location_view(r)->0;
            let i = choose|i: int| 0 <= i < c.len() && #[trigger] c[i] == (loc.0, loc.1);
            assert(candidates@[i].0@ == loc.0 && candidates@[i].1@ == loc.1);
        }
    }
    (r, search)
}

/// The status reported when the bot is not running: where it was found, if
/// anywhere, and where its configuration lives (when the app has a data
/// directory).
pub open spec fn idle_status(
    config_dir: Option<Seq<char>>,
    found: Option<(Seq<char>, Seq<char>, BotKind)>,
    w: bool,
) -> StatusView {
    StatusView {
        running: false,
        owned_by_gui: false,
        pid: None,
        config_dir,
        env_path: match config_dir {
            Some(c) => Some(env_path_of(c, w)),
            None => None,
        },
        asset_dir: match found {
            Some((d, l, k)) => Some(d),
            None => None,
        },
        source_label: match found {
            Some((d, l, k)) => Some(l),
            None => None,
        },
        launch_target: match found {
            Some((d, l, k)) => Some(location_target(d, k, w)),
            None => None,
        },
    }
}

pub open spec fn location_view(o: Option<BotLocation>) -> Option<(Seq<char>, Seq<char>, BotKind)> {
    match o {
        Some(l) => Some((l.dir@, l.label@, l.kind)),
        None => None,
    }
}

/// The status of a bot that is not running (see `idle_status`).
pub fn status_of_location(config_dir: Option<String>, found: Option<BotLocation>, on_windows: bool) -> (r:
    DiscordBotStatus)
    ensures
        r@ == idle_status(opt_string(config_dir), location_view(found), on_windows),
{
    let env_path = match &config_dir {
        Some(c) => Some(join_path(c.as_str(), ".env.xiaokui", on_windows)),
        None => None,
    };
    match found {
        Some(loc) => {
            let target = match loc.kind {
                BotKind::Packaged => join_path(loc.dir.as_str(), packaged_bot_name(on_windows), on_windows),
                BotKind::Source => join_path(loc.dir.as_str(), "bot_xiaokui.py", on_windows),
            };
            DiscordBotStatus {
                running: false,
                owned_by_gui: false,
                pid: None,
                config_dir,
                env_path,
                asset_dir: Some(loc.dir),
                source_label: Some(loc.label),
                launch_target: Some(target),
            }
        },
        None => DiscordBotStatus {
            running: false,
            owned_by_gui: false,
            pid: None,
            config_dir,
            env_path,
            asset_dir: None,
            source_label: None,
            launch_target: None,
        },
    }
}

/// The status when the bot is not running: the candidates are searched and
/// the first place holding the bot is reported. The second half is the search
/// made (see `locate_bot`).
pub fn inspect_discord_bot_runtime(
    candidates: &Vec<(String, &'static str)>,
    config_dir: Option<String>,
    on_windows: bool,
) -> (r: (DiscordBotStatus, Vec<CandidateSearch>))
    ensures
        search_made(pairs_view(candidates@), search_view(r.1@), on_windows),
        r.0@ == idle_status(
            opt_string(config_dir),
            first_found(pairs_view(candidates@), probe_bits(search_view(r.1@)), 0),
            on_windows,
        ),
        !r.0.running && !r.0.owned_by_gui && r.0.pid is None,
        r.0@.asset_dir matches Some(d) ==> exists|i: int|
            0 <= i < candidates.len() && #[trigger] candidates@[i].0@ == d && r.0@.source_label == Some(
                candidates@[i].1@,
            ),
{
    let (found, search) = locate_bot(candidates, on_windows);
    let r = status_of_location(config_dir, found, on_windows);
    (r, search)
}

/// The error when no bot runtime can be found.
pub fn no_runtime_message() -> (r: String)
    ensures
        r@ == "找不到可用的 Discord Bot runtime（既沒有 xiaokui_bot.exe，也沒有 bot_xiaokui.py）"@,
{
    copy_str("找不到可用的 Discord Bot runtime（既沒有 xiaokui_bot.exe，也沒有 bot_xiaokui.py）")
}

/// The bot's location, or the error that none was found. The second half is
/// the search made (see `locate_bot`).
pub fn resolve_location(candidates: &Vec<(String, &'static str)>, on_windows: bool) -> (r: (
    Result<BotLocation, String>,
    Vec<CandidateSearch>,
))
    ensures
        search_made(pairs_view(candidates@), search_view(r.1@), on_windows),
        match r.0 {
            Ok(loc) => first_found(pairs_view(candidates@), probe_bits(search_view(r.1@)), 0) == Some(
                (loc.dir@, loc.label@, loc.kind),
            ),
            Err(e) => first_found(pairs_view(candidates@), probe_bits(search_view(r.1@)), 0) is None && e@
                == "找不到可用的 Discord Bot runtime（既沒有 xiaokui_bot.exe，也沒有 bot_xiaokui.py）"@,
        },
{
    let (found, search) = locate_bot(candidates, on_windows);
    match found {
        Some(loc) => (Ok(loc), search),
        None => (Err(no_runtime_message()), search),
    }
}

/// The runtime resolved and the status inspected on the same disk agree:
/// the runtime search fails exactly when the status shows no bot, and
/// otherwise the status shows the runtime's directory, label and target.
pub proof fn resolve_agrees_with_inspection(
    c: Seq<(Seq<char>, Seq<char>)>,
    w: bool,
    is_file: spec_fn(Seq<char>) -> bool,
    is_present: spec_fn(Seq<char>) -> bool,
    status_search: Seq<CandidateProbe>,
    runtime_search: Seq<CandidateProbe>,
    config_dir: Option<Seq<char>>,
)
    requires
        search_made(c, status_search, w),
        search_made(c, runtime_search, w),
        answers_from(status_search, is_file, is_present),
        answers_from(runtime_search, is_file, is_present),
    ensures
        ({
            let s = idle_status(config_dir, first_found(c, probe_bits(status_search), 0), w);
            match first_found(c, probe_bits(runtime_search), 0) {
                None => s.asset_dir is None && s.source_label is None && s.launch_target is None,
                Some((d, l, k)) => s.asset_dir == Some(d) && s.source_label == Some(l) && s.launch_target
                    == Some(location_target(d, k, w)),
            }
        }),
{
    same_disk_same_search(c, w, is_file, is_present, status_search, runtime_search);
}

/// The runtime of a found bot, with its configuration directory.
pub fn runtime_for(found: BotLocation, config_dir: String, on_windows: bool) -> (r: DiscordBotRuntime)
    ensures
        r.asset_dir@ == found.dir@,
        r.config_dir@ == config_dir@,
        r.source_label@ == found.label@,
        match found.kind {
            BotKind::Packaged => r.launch_target matches DiscordBotLaunchTarget::Executable(p)
                && p@ == packaged_bot_path(found.dir@, on_windows),
            BotKind::Source => r.launch_target matches DiscordBotLaunchTarget::PythonScript(p)
                && p@ == source_bot_path(found.dir@, on_windows),
        },
        target_path(r.launch_target) == location_target(found.dir@, found.kind, on_windows),
{
    let launch_target = match found.kind {
        BotKind::Packaged => DiscordBotLaunchTarget::Executable(
            join_path(found.dir.as_str(), packaged_bot_name(on_windows), on_windows),
        ),
        BotKind::Source => DiscordBotLaunchTarget::PythonScript(
            join_path(found.dir.as_str(), "bot_xiaokui.py", on_windows),
        ),
    };
    DiscordBotRuntime {
        launch_target,
        asset_dir: found.dir,
        config_dir,
        source_label: found.label,
    }
}

/// The files a new configuration directory gets from the bot's assets, as
/// (source, target) pairs: the configuration, the environment file made from
/// its example, and the example itself.
pub fn config_copy_plan(asset_dir: &str, config_dir: &str, on_windows: bool) -> (r: Vec<(String, String)>)
    ensures
        r.len() == 3,
        r@[0].0@ == path_join(asset_dir@, "config_xiaokui.json"@, on_windows),
        r@[0].1@ == path_join(config_dir@, "config_xiaokui.json"@, on_windows),
        r@[1].0@ == path_join(asset_dir@, ".env.xiaokui.example"@, on_windows),
        r@[1].1@ == path_join(config_dir@, ".env.xiaokui"@, on_windows),
        r@[2].0@ == path_join(asset_dir@, ".env.xiaokui.example"@, on_windows),
        r@[2].1@ == path_join(config_dir@, ".env.xiaokui.example"@, on_windows),
{
    let w = on_windows;
    vec![
        (join_path(asset_dir, "config_xiaokui.json", w), join_path(config_dir, "config_xiaokui.json", w)),
        (join_path(asset_dir, ".env.xiaokui.example", w), join_path(config_dir, ".env.xiaokui", w)),
        (join_path(asset_dir, ".env.xiaokui.example", w), join_path(config_dir, ".env.xiaokui.example", w)),
    ]
}

/// A file is copied only when its source exists and its target does not.
pub fn should_copy(source_exists: bool, target_exists: bool) -> (r: bool)
    ensures
        r == (source_exists && !target_exists),
{
    source_exists && !target_exists
}

/// The status of a bot this app started and that still runs: the runtime's
/// when it can be resolved, otherwise the inspected one marked as running.
pub fn status_of_running_child(
    inspected: DiscordBotStatus,
    runtime: Option<&DiscordBotRuntime>,
    pid: Option<u32>,
    on_windows: bool,
) -> (r: DiscordBotStatus)
    ensures
        r.running && r.owned_by_gui && r.pid == pid,
        match runtime {
            Some(rt) => r@ == (StatusView {
                running: true,
                owned_by_gui: true,
                pid,
                config_dir: Some(rt.config_dir@),
                env_path: Some(env_path_of(rt.config_dir@, on_windows)),
                asset_dir: Some(rt.asset_dir@),
                source_label: Some(rt.source_label@),
                launch_target: Some(target_path(rt.launch_target)),
            }),
            None => r@ == (StatusView { running: true, owned_by_gui: true, pid, ..inspected@ }),
        },
{
    match runtime {
        Some(rt) => runtime_status(rt, true, true, pid, on_windows),
        None => DiscordBotStatus { running: true, owned_by_gui: true, pid, ..inspected },
    }
}

/// The status when this app runs no bot: running when a bot started
/// elsewhere was found, and then with its process id.
pub fn status_without_child(inspected: DiscordBotStatus, external_pid: Option<u32>) -> (r:
    DiscordBotStatus)
    ensures
        r@ == (StatusView {
            running: external_pid is Some,
            owned_by_gui: false,
            pid: external_pid,
            ..inspected@
        }),
{
    DiscordBotStatus {
        running: external_pid.is_some(),
        owned_by_gui: false,
        pid: external_pid,
        ..inspected
    }
}

/// The status after stopping: nothing runs.
pub fn stopped_status(inspected: DiscordBotStatus) -> (r: DiscordBotStatus)
    ensures
        r@ == (StatusView { running: false, owned_by_gui: false, pid: None, ..inspected@ }),
{
    DiscordBotStatus { running: false, owned_by_gui: false, pid: None, ..inspected }
}

/// Stopping when this app runs no bot: a bot started elsewhere is left
/// alone and reported as an error.
pub fn stop_without_child(inspected: DiscordBotStatus, external_pid: Option<u32>) -> (r: Result<
    DiscordBotStatus,
    String,
>)
    ensures
        match r {
            Ok(s) => external_pid is None && s@ == (StatusView {
                running: false,
                owned_by_gui: false,
                pid: None,
                ..inspected@
            }),
            Err(e) => external_pid is Some && e@ == "Discord Bot 目前是外部啟動，GUI 不會直接幫你關掉它。"@,
        },
{
    if external_pid.is_some() {
        return Err(copy_str("Discord Bot 目前是外部啟動，GUI 不會直接幫你關掉它。"));
    }
    Ok(stopped_status(inspected))
}

/// Starting a bot that already runs changes nothing: its status is the
/// answer. Nothing comes back when it has to be started.
pub fn already_running(current: DiscordBotStatus) -> (r: Option<DiscordBotStatus>)
    ensures
        current.running ==> (r matches Some(s) && s@ == current@),
        !current.running ==> r is None,
{
    if current.running {
        Some(current)
    } else {
        None
    }
}

/// How the bot process is started.
#[derive(Debug)]
pub struct LaunchCommand {
    pub program: String,
    pub args: Vec<String>,
    pub cwd: String,
    pub env: Vec<(String, String)>,
}

/// The command for a runtime: the script through `python`, or the
/// executable itself; run in the configuration directory, told where that
/// directory is and which directory Codex works in.
pub fn launch_command(runtime: &DiscordBotRuntime, working_dir: &str) -> (r: LaunchCommand)
    ensures
        match runtime.launch_target {
            DiscordBotLaunchTarget::PythonScript(p) => r.program@ == "python"@ && r.args.len() == 1
                && r.args@[0]@ == p@,
            DiscordBotLaunchTarget::Executable(p) => r.program@ == p@ && r.args.len() == 0,
        },
        r.cwd@ == runtime.config_dir@,
        r.env.len() == 2,
        r.env@[0].0@ == "XIAOKUI_BOT_DIR"@,
        r.env@[0].1@ == runtime.config_dir@,
        r.env@[1].0@ == "CODEX_CWD"@,
        r.env@[1].1@ == working_dir@,
{
    let (program, args) = match &runtime.launch_target {
        DiscordBotLaunchTarget::PythonScript(p) => (copy_str("python"), vec![p.clone()]),
        DiscordBotLaunchTarget::Executable(p) => (p.clone(), Vec::new()),
    };
    LaunchCommand {
        program,
        args,
        cwd: runtime.config_dir.clone(),
        env: vec![
            (copy_str("XIAOKUI_BOT_DIR"), runtime.config_dir.clone()),
            (copy_str("CODEX_CWD"), copy_str(working_dir)),
        ],
    }
}

/// The value of a sequence of decimal digits.
pub open spec fn digits_value(s: Seq<char>) -> nat
    decreases s.len(),
{
    if s.len() == 0 {
        0
    } else {
        digits_value(s.drop_last()) * 10 + ((s.last() as u32) - 48) as nat
    }
}

pub open spec fn is_digit(c: char) -> bool {
    48 <= c as u32 <= 57
}

/// The text after an optional leading `+`.
pub open spec fn unsigned_digits(s: Seq<char>) -> Seq<char> {
    if s.len() > 0 && s[0] == '+' {
        s.drop_first()
    } else {
        s
    }
}

pub open spec fn all_digits(d: Seq<char>) -> bool {
    forall|i: int| 0 <= i < d.len() ==> is_digit(#[trigger] d[i])
}

/// `u32::from_str`: an optional `+`, then one or more decimal digits, with a
/// value that fits in 32 bits.
pub open spec fn parse_u32(s: Seq<char>) -> Option<u32> {
    let d = unsigned_digits(s);
    if d.len() > 0 && all_digits(d) && digits_value(d) <= 0xffff_ffff {
        Some(digits_value(d) as u32)
    } else {
        None
    }
}

proof fn lemma_digits_value_monotone(s: Seq<char>, k: int)
    requires
        0 <= k <= s.len(),
        forall|i: int| 0 <= i < s.len() ==> is_digit(#[trigger] s[i]),
    ensures
        digits_value(s.take(k)) <= digits_value(s),
    decreases s.len() - k,
{
    if k < s.len() {
        assert(s.take(k) =~= s.drop_last().take(k));
        lemma_digits_value_monotone(s.drop_last(), k);
        assert(digits_value(s) >= digits_value(s.drop_last()));
    } else {
        assert(s.take(k) =~= s);
    }
}

/// The process id printed by the process lookup: the output, trimmed, read
/// as a 32-bit number (see `parse_u32`).
pub fn parse_pid(output: &str) -> (r: Option<u32>)
    ensures
        r == parse_u32(trim(output@)),
{
    let v = chars_of(output);
    let t = trim_chars(&v);
    let start: usize = if t.len() > 0 && t[0] == '+' { 1 } else { 0 };
    let ghost d = unsigned_digits(t@);
    proof {
        assert(d =~= t@.skip(start as int));
    }
    if start >= t.len() {
        return None;
    }
    let mut value: u64 = 0;
    let mut i = start;
    while i < t.len()
        invariant
            start <= i <= t.len(),
            d == t@.skip(start as int),
            t@ == trim(output@),
            d == unsigned_digits(t@),
            d.len() > 0,
            value == digits_value(d.take(i - start)),
            value <= 0xffff_ffff,
            forall|j: int| 0 <= j < i - start ==> is_digit(#[trigger] d[j]),
        decreases t.len() - i,
    {
        let c = t[i];
        let n = c as u32;
        if !(48 <= n && n <= 57) {
            proof {
                assert(d[i - start] == c);
                assert(!is_digit(d[i - start]));
                assert(!all_digits(d));
            }
            return None;
        }
        let digit = (n - 48) as u64;
        proof {
            assert(d.take(i - start + 1).drop_last() =~= d.take(i - start));
            assert(d[i - start] == c);
        }
        value = value * 10 + digit;
        proof {
            assert(value == digits_value(d.take(i - start + 1)));
        }
        if value > 0xffff_ffff {
            proof {
                assert forall|j: int| 0 <= j < i - start + 1 implies is_digit(#[trigger] d.take(i - start + 1)[j]) by {
                }
                if all_digits(d) {
                    lemma_digits_value_monotone(d, i - start + 1);
                    assert(digits_value(d) > 0xffff_ffff);
                }
            }
            return None;
        }
        i += 1;
    }
    proof {
        assert(d.take(i - start) =~= d);
    }
    Some(value as u32)
}

} // verus!
