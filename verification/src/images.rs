//! Pasted images kept in a temporary directory of the app's own.

use vstd::prelude::*;
use crate::text::{concat, copy_str, str_eq};

verus! {

broadcast use {vstd::string::group_string_axioms, vstd::std_specs::vec::group_vec_axioms};

/// The name of the app's directory inside the system's temporary directory.
pub fn temp_dir_name() -> (r: &'static str)
    ensures
        r@ == "xiaokui_alive"@,
{
    "xiaokui_alive"
}

/// The file name of a pasted image taken at the time `stamp`.
pub fn temp_image_file_name(stamp: &str) -> (r: String)
    ensures
        r@ == "clipboard_"@ + stamp@ + ".png"@,
{
    let a = concat("clipboard_", stamp);
    concat(a.as_str(), ".png")
}

/// The local time as `YYYYMMDD_HHMMSS_mmm`: chrono's `Local::now()` formatted
/// with `%Y%m%d_%H%M%S_%3f`. It depends on the clock and the machine's time
/// zone, so nothing is said of the text.
#[verifier::external_body]
fn local_time_stamp() -> String {
    chrono::Local::now().format("%Y%m%d_%H%M%S_%3f").to_string()
}

/// The file name for an image pasted now: `clipboard_<local time>.png`.
pub fn new_temp_image_file_name() -> (r: String)
    ensures
        exists|stamp: Seq<char>| r@ == "clipboard_"@ + stamp + ".png"@,
{
    let stamp = local_time_stamp();
    let r = temp_image_file_name(stamp.as_str());
    assert(r@ == "clipboard_"@ + stamp@ + ".png"@);
    r
}

pub open spec fn parts_view(v: Seq<String>) -> Seq<Seq<char>> {
    v.map_values(|s: String| s@)
}

/// Whether the path with components `path` lies inside the directory with
/// components `dir` (`Path::starts_with`: the directory's components begin
/// the path's).
pub fn path_within(path: &Vec<String>, dir: &Vec<String>) -> (r: bool)
    ensures
        r == (dir.len() <= path.len() && parts_view(path@).take(dir.len() as int) == parts_view(dir@)),
{
    if dir.len() > path.len() {
        return false;
    }
    let mut i: usize = 0;
    while i < dir.len()
        invariant
            dir.len() <= path.len(),
            i <= dir.len(),
            forall|j: int| 0 <= j < i ==> path@[j]@ == dir@[j]@,
        decreases dir.len() - i,
    {
        if !str_eq(path[i].as_str(), dir[i].as_str()) {
            assert(parts_view(path@).take(dir.len() as int)[i as int] != parts_view(dir@)[i as int]);
            return false;
        }
        i += 1;
    }
    assert(parts_view(path@).take(dir.len() as int) =~= parts_view(dir@));
    true
}

/// Only files inside the app's temporary directory may be deleted.
pub fn check_removable(path: &Vec<String>, temp_dir: &Vec<String>) -> (r: Result<(), String>)
    ensures
        match r {
            Ok(()) => temp_dir.len() <= path.len() && parts_view(path@).take(temp_dir.len() as int)
                == parts_view(temp_dir@),
            Err(e) => !(temp_dir.len() <= path.len() && parts_view(path@).take(temp_dir.len() as int)
                == parts_view(temp_dir@)) && e@ == "Cannot delete file outside temp directory"@,
        },
{
    if path_within(path, temp_dir) {
        Ok(())
    } else {
        Err(copy_str("Cannot delete file outside temp directory"))
    }
}

} // verus!
