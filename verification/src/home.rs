//! Where Codex keeps its files under the user's home directory.

use vstd::prelude::*;
use crate::bot::{join_path, path_join};

verus! {

broadcast use {vstd::string::group_string_axioms, vstd::std_specs::vec::group_vec_axioms};

/// The user's home directory as text: `dirs::home_dir`. It depends on the
/// environment, so nothing is said of it.
#[verifier::external_body]
fn home_dir() -> Option<String> {
    dirs::home_dir().map(|p| p.to_string_lossy().to_string())
}

/// The places of Codex's files.
#[derive(Debug)]
pub struct CodexPaths {
    /// The session logs, `sessions/<year>/<month>/<day>/*.jsonl`.
    pub sessions_dir: String,
    /// The session index, one JSON record per line.
    pub session_index: String,
    /// The executables the Codex installer leaves in `.sandbox-bin`, in the
    /// order they are tried.
    pub sandbox_bins: Vec<String>,
}

pub struct CodexPathsView {
    pub sessions_dir: Seq<char>,
    pub session_index: Seq<char>,
    pub sandbox_bins: Seq<Seq<char>>,
}

impl View for CodexPaths {
    type V = CodexPathsView;

    open spec fn view(&self) -> CodexPathsView {
        CodexPathsView {
            sessions_dir: self.sessions_dir@,
            session_index: self.session_index@,
            sandbox_bins: self.sandbox_bins@.map_values(|s: String| s@),
        }
    }
}

/// The names of the Codex executable on the platform, in the order they are tried.
pub open spec fn codex_exe_names(on_windows: bool) -> Seq<Seq<char>> {
    if on_windows {
        seq!["codex.exe"@, "codex.cmd"@, "codex"@]
    } else {
        seq!["codex"@]
    }
}

/// Codex's files below the home directory `home`: `.codex/sessions`,
/// `.codex/session_index.jsonl` and `.codex/.sandbox-bin/<executable>`.
pub open spec fn codex_paths_view(home: Seq<char>, on_windows: bool) -> CodexPathsView {
    let c = path_join(home, ".codex"@, on_windows);
    let bin = path_join(c, ".sandbox-bin"@, on_windows);
    CodexPathsView {
        sessions_dir: path_join(c, "sessions"@, on_windows),
        session_index: path_join(c, "session_index.jsonl"@, on_windows),
        sandbox_bins: codex_exe_names(on_windows).map_values(|n: Seq<char>| path_join(bin, n, on_windows)),
    }
}

/// Codex's files below the home directory `home` (see `codex_paths_view`).
pub fn codex_paths_in(home: &str, on_windows: bool) -> (r: CodexPaths)
    ensures
        r@ == codex_paths_view(home@, on_windows),
{
    let c = join_path(home, ".codex", on_windows);
    let bin = join_path(c.as_str(), ".sandbox-bin", on_windows);
    let sandbox_bins = if on_windows {
        vec![
            join_path(bin.as_str(), "codex.exe", on_windows),
            join_path(bin.as_str(), "codex.cmd", on_windows),
            join_path(bin.as_str(), "codex", on_windows),
        ]
    } else {
        vec![join_path(bin.as_str(), "codex", on_windows)]
    };
    let r = CodexPaths {
        sessions_dir: join_path(c.as_str(), "sessions", on_windows),
        session_index: join_path(c.as_str(), "session_index.jsonl", on_windows),
        sandbox_bins,
    };
    assert(r@.sandbox_bins =~= codex_paths_view(home@, on_windows).sandbox_bins);
    r
}

/// Codex's files below the user's home directory; none when the home
/// directory is unknown.
pub fn codex_paths(on_windows: bool) -> (r: Option<CodexPaths>)
    ensures
        r matches Some(p) ==> exists|home: Seq<char>| p@ == codex_paths_view(home, on_windows),
{
    match home_dir() {
        Some(home) => {
            let p = codex_paths_in(home.as_str(), on_windows);
            assert(p@ == codex_paths_view(home@, on_windows));
            Some(p)
        },
        None => None,
    }
}

} // verus!
