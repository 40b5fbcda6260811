use metoks::paths::{
    app_dir, cache_dir, config_file, data_dir, db_file, file_name, file_stem, has_extension,
    parent_name, path_components, path_join, pricing_cache, sort_paths,
};
use std::path::{Path, PathBuf};

const PATHS: [&str; 22] = [
    "", "/", ".", "..", "a", "/a", "a/", "a/b", "/a/b/", "a//b", "a/./b", "./a", "./", "a/..", "../a",
    ".bashrc", "a.tar.gz", "/x/.hidden", "x/y.jsonl", "x/rollout-1.jsonl", "a/.", "päth/ünï.jsonl",
];

#[test]
fn parts_are_those_of_the_system() {
    for p in PATHS {
        let want: Vec<String> =
            Path::new(p).components().map(|c| c.as_os_str().to_string_lossy().into_owned()).collect();
        assert_eq!(path_components(p), want, "{p}");
    }
}

#[test]
fn names_are_those_of_the_system() {
    for p in PATHS {
        let path = Path::new(p);
        let name = path.file_name().map(|s| s.to_string_lossy().into_owned());
        let stem = path.file_stem().map(|s| s.to_string_lossy().into_owned());
        let above = path.parent().and_then(|q| q.file_name()).map(|s| s.to_string_lossy().into_owned());
        assert_eq!(file_name(p), name, "{p}");
        assert_eq!(file_stem(p), stem, "{p}");
        assert_eq!(parent_name(p), above, "{p}");
        assert_eq!(has_extension(p, "jsonl"), path.extension().map(|e| e == "jsonl").unwrap_or(false), "{p}");
    }
}

#[test]
fn joining_is_that_of_the_system() {
    for a in PATHS {
        for b in PATHS {
            let want = Path::new(a).join(b).to_string_lossy().into_owned();
            assert_eq!(path_join(a, b), want, "{a} {b}");
        }
    }
}

#[test]
fn sorting_is_that_of_the_system() {
    let v: Vec<String> =
        ["/b", "/a/b", "/a-b", "/a", "/b/", "rel", "../x", "./x", "/a/b/c", "/a"].iter().map(|s| s.to_string()).collect();
    let mut want: Vec<PathBuf> = v.iter().map(PathBuf::from).collect();
    want.sort();
    want.dedup();
    let got: Vec<PathBuf> = sort_paths(&v).iter().map(PathBuf::from).collect();
    assert_eq!(got, want);
}

#[test]
fn locations_come_from_the_environment_first() {
    let (base, home) = (Some("/std"), Some("/home/me"));
    assert_eq!(config_file(Some("/my/conf"), base, home), "/my/conf");
    assert_eq!(config_file(Some(""), base, home), "/std/metoks/config.yaml");
    assert_eq!(config_file(None, base, home), "/std/metoks/config.yaml");
    assert_eq!(config_file(None, None, home), "/home/me/.metoks/config.yaml");
    assert_eq!(config_file(None, None, None), "./.metoks/config.yaml");
    assert_eq!(data_dir(Some("/d"), base, home), "/d");
    assert_eq!(data_dir(None, base, home), "/std/metoks");
    assert_eq!(cache_dir(None, base, home), "/std/metoks");
    assert_eq!(cache_dir(Some("/c"), base, home), "/c");
    assert_eq!(db_file(None, "/d"), "/d/metoks.db");
    assert_eq!(db_file(Some("/x.db"), "/d"), "/x.db");
    assert_eq!(pricing_cache("/c"), "/c/pricing.json");
    assert_eq!(app_dir(None, home), "/home/me/.metoks");
}
