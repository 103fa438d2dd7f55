//! Where a project's files lie, given its Beamfile's path.

use vstd::prelude::*;

use crate::text::copy_str;

verus! {

/// The parent of a path, as `std::path::Path::parent` gives it.
pub uninterp spec fn path_parent(p: Seq<char>) -> Option<Seq<char>>;

/// A path joined with another, as `std::path::Path::join` gives it.
pub uninterp spec fn path_join(base: Seq<char>, rest: Seq<char>) -> Seq<char>;

/// Relies on `std::path::Path::parent`: the path without its last component,
/// if it has one.
#[verifier::external_body]
fn parent_of(p: &str) -> (r: Option<String>)
    ensures
        match r {
            Some(s) => path_parent(p@) == Some(s@),
            None => path_parent(p@) is None,
        },
{
    std::path::Path::new(p).parent().map(|q| q.to_string_lossy().to_string())
}

/// Relies on `std::path::Path::join`: `rest` appended to `base`.
#[verifier::external_body]
fn join_path(base: &str, rest: &str) -> (r: String)
    ensures
        r@ == path_join(base@, rest@),
{
    std::path::Path::new(base).join(rest).to_string_lossy().to_string()
}

/// The name of the project file.
pub fn beamfile_name() -> (r: String)
    ensures
        r@ == "Beamfile"@,
{
    copy_str("Beamfile")
}

/// The project's working directory: the Beamfile's parent, else `.`.
pub fn working_dir(beamfile_path: &str) -> (r: String)
    ensures
        r@ == match path_parent(beamfile_path@) {
            Some(p) => p,
            None => "."@,
        },
{
    match parent_of(beamfile_path) {
        Some(p) => p,
        None => copy_str("."),
    }
}

/// The project's cache directory: `.aurora/cache` under its working directory.
pub fn cache_dir(beamfile_path: &str) -> (r: String)
    ensures
        r@ == path_join(
            path_join(
                match path_parent(beamfile_path@) {
                    Some(p) => p,
                    None => "."@,
                },
                ".aurora"@,
            ),
            "cache"@,
        ),
{
    let w = working_dir(beamfile_path);
    let a = join_path(w.as_str(), ".aurora");
    join_path(a.as_str(), "cache")
}

/// The directories to look for a Beamfile in, from `start` up to the root.
pub fn search_dirs(start: &str) -> (r: Vec<String>)
    ensures
        r@.len() >= 1,
        r@[0]@ == start@,
        forall|i: int| 0 < i < r@.len() ==> path_parent(r@[i - 1]@) == Some(#[trigger] r@[i]@),
{
    let mut r: Vec<String> = Vec::new();
    r.push(copy_str(start));
    let mut fuel: usize = 4096;
    while fuel > 0
        invariant
            r@.len() >= 1,
            r@[0]@ == start@,
            forall|i: int| 0 < i < r@.len() ==> path_parent(r@[i - 1]@) == Some(#[trigger] r@[i]@),
        decreases fuel,
    {
        let last = r.len() - 1;
        match parent_of(r[last].as_str()) {
            Some(p) => {
                r.push(p);
            },
            None => {
                return r;
            },
        }
        fuel = fuel - 1;
    }
    r
}

/// Settings of watch mode.
#[derive(Clone, Debug)]
pub struct WatchConfig {
    /// The Beamfile's path.
    pub beamfile_path: String,
    /// The beam to run.
    pub target: String,
    /// The bound on beams in flight.
    pub parallel: usize,
    /// Whether the cache is in use.
    pub use_cache: bool,
    /// Whether to clear the screen before each run.
    pub clear_screen: bool,
}

} // verus!
