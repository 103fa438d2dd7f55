use aurora::discovery::search_dirs;
use aurora::{cache_dir, working_dir};

#[test]
fn test_working_dir() {
    let beamfile = "/some/project/Beamfile";
    assert_eq!(working_dir(beamfile), "/some/project");
}

#[test]
fn test_cache_dir() {
    let beamfile = "/some/project/Beamfile";
    assert_eq!(cache_dir(beamfile), "/some/project/.aurora/cache");
}

#[test]
fn working_dir_of_a_bare_name_is_current() {
    assert_eq!(working_dir("/"), ".");
    assert_eq!(working_dir("Beamfile"), "");
}

#[test]
fn search_goes_up_to_the_root() {
    let dirs = search_dirs("/a/b/c");
    assert_eq!(dirs, vec!["/a/b/c", "/a/b", "/a", "/"]);
}
