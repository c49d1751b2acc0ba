use std::collections::HashSet;
use std::path::Path;
use std::sync::PoisonError;

use rls_analysis::basics::Guarded;
use rls_analysis::loader::walk_dirs;
use rls_analysis::reading::{files_to_read, is_blacklisted, recorded_time};
use rls_analysis::text::{decimal_text, slashed_text, trimmed_text};
use rls_analysis::{
    name_space_for_def_kind, AError, AnalysisHost, AnalysisLoader, CargoAnalysisLoader, CrateId,
    DefKind, FilePath, Id, Range, Span, Target,
};

fn path(text: &str) -> FilePath {
    FilePath::named(text)
}

#[test]
fn errors_are_shown_by_their_description() {
    let poison = "poison error in a mutex (usually a secondary error)";
    assert_eq!(AError::MutexPoison.description(), poison);
    assert_eq!(AError::MutexPoison.to_string(), poison);
    assert_eq!(AError::Unclassified.description(), "unknown error");
    assert_eq!(AError::Unclassified.to_string(), "unknown error");
}

#[test]
fn poisoned_locks_of_std_are_errors() {
    let error = AError::from(PoisonError::new(0));
    assert_eq!(error, AError::MutexPoison);
}

#[test]
fn guarded_values() {
    let mut guarded = Guarded::new(3);
    assert_eq!(guarded.lock(), Ok(&3));
    *guarded.lock_mut().unwrap() = 4;
    assert_eq!(guarded.set(guarded.lock().unwrap() + 1), Ok(()));
    assert_eq!(guarded.lock(), Ok(&5));
    guarded.poison();
    assert_eq!(guarded.lock(), Err(AError::MutexPoison));
    assert_eq!(guarded.set(6), Err(AError::MutexPoison));
    assert_eq!(guarded.into_inner(), Err(AError::MutexPoison));
}

#[test]
fn ids_are_shown_in_decimal() {
    assert_eq!(Id(0).to_string(), "0");
    assert_eq!(Id::new(4294967301).to_string(), "4294967301");
    assert_eq!(Id::null().to_string(), "18446744073709551615");
    assert_eq!(decimal_text(1000), "1000");
}

#[test]
fn qualified_names_as_paths() {
    assert_eq!(slashed_text("std::string::String"), "std/string/String");
    assert_eq!(slashed_text("std::"), "std/");
    assert_eq!(slashed_text("a:::b"), "a/:b");
    assert_eq!(slashed_text("::::"), "//");
    assert_eq!(slashed_text(""), "");
    assert_eq!(trimmed_text("std//"), "std");
    assert_eq!(trimmed_text("/a/b"), "/a/b");
    assert_eq!(trimmed_text("///"), "");
}

#[test]
fn name_spaces() {
    assert_eq!(name_space_for_def_kind(DefKind::Struct), 't');
    assert_eq!(name_space_for_def_kind(DefKind::Trait), 't');
    assert_eq!(name_space_for_def_kind(DefKind::Macro), 'm');
    assert_eq!(name_space_for_def_kind(DefKind::Mod), 'v');
    assert_eq!(name_space_for_def_kind(DefKind::Method), 'v');
}

#[test]
fn paths_by_their_parts() {
    let file = path("/proj/src/main.rs");
    assert_eq!(file, path("/proj//src/./main.rs/"));
    assert!(!file.same(&path("proj/src/main.rs")));
    assert!(!path("./a").same(&path("a")));
    assert_eq!(file.part_count(), 3);
    assert_eq!(path("/proj").join(&path("src/main.rs")).as_str(), "/proj/src/main.rs");
    assert_eq!(path("/proj/").join(&path("./src")).as_str(), "/proj/./src");
    assert_eq!(path("/proj").join(&path("./src")), path("/proj/src"));
    assert_eq!(path("/proj").join(&path("/other")).as_str(), "/other");
    let left = path("/p/src//lib.rs").strip_prefix(&path("/p")).unwrap();
    assert_eq!(left.as_str(), "src//lib.rs");
    assert!(file.strip_prefix(&path("/pro")).is_none());
    assert!(file.strip_prefix(&path("proj")).is_none());
    assert_eq!(file.strip_prefix(&file).unwrap().as_str(), "");
}

#[test]
fn paths_as_std_has_them() {
    let texts = [
        "", "/", "//", "/.", ".", "./", "./.", "./a", ".//a", "a", "a/", "a/.", "a/./", "a//b",
        "a/./b", "/a", "/a/", "//a", "/./a", "/a/b", "/a//b", "/a/./b/", "/a/b//.//", "..", "../a",
        "a/..", "a/../b", ".a", "a.", "/a/.b/c", "/./a/./b/./c/.", "./a/b/", "/p/src//lib.rs",
        "/p", "/p//src", "p", "...", "./..",
    ];
    for a in texts {
        for b in texts {
            let (x, y) = (path(a), path(b));
            let (u, v) = (Path::new(a), Path::new(b));
            assert_eq!(x == y, u == v, "{:?} and {:?}", a, b);
            assert_eq!(Some(x.join(&y).as_str()), u.join(v).to_str(), "{:?} and {:?}", a, b);
            assert_eq!(
                x.strip_prefix(&y).map(|p| p.as_str().to_string()),
                u.strip_prefix(v).ok().and_then(|p| p.to_str()).map(|p| p.to_string()),
                "{:?} and {:?}",
                a,
                b
            );
        }
    }
}

#[test]
fn equal_paths_hash_alike() {
    let mut set: HashSet<Span> = HashSet::new();
    let range = Range {
        row_start: 1,
        row_end: 1,
        col_start: 2,
        col_end: 3,
    };
    assert!(set.insert(Span::new(path("/a/b"), range)));
    assert!(!set.insert(Span::new(path("/a//./b/"), range)));
    assert!(set.insert(Span::new(path("a/b"), range)));
    assert!(set.insert(Span::new(path("/a/c"), range)));
}

#[test]
fn crate_ids_by_name_and_file() {
    let id = CrateId::new("std".to_string(), path("/data/a"));
    assert!(id.same(&CrateId::new("std".to_string(), path("/data/a"))));
    assert!(!id.same(&CrateId::new("core".to_string(), path("/data/a"))));
    assert!(!id.same(&CrateId::new("std".to_string(), path("/data/b"))));
}

#[test]
fn cargo_loader_knows_the_directories() {
    let mut loader = CargoAnalysisLoader {
        path_prefix: None,
        target: Target::Release,
    };
    assert!(loader.needs_hard_reload(&path("/proj")));
    assert_eq!(loader.search_dirs(), vec![]);
    loader.set_path_prefix(&path("/proj"));
    assert!(!loader.needs_hard_reload(&path("/proj")));
    assert!(loader.needs_hard_reload(&path("/other")));
    assert_eq!(loader.abs_path_prefix(), Some(path("/proj")));
    assert_eq!(
        loader.iter_paths(|p| vec![p.as_str().to_string()]),
        vec![
            "/proj/target/rls/release/deps/save-analysis".to_string(),
            "/proj/target/rls/release/save-analysis".to_string(),
        ]
    );
    assert!(!loader.needs_hard_reload(&path("/proj/.")));
    let fresh = loader.fresh_host();
    assert_eq!(fresh.loader().path_prefix, Some(path("/proj")));
    let host = AnalysisHost::new(Target::Debug);
    assert_eq!(host.loader().target, Target::Debug);
    assert_eq!(host.loader().path_prefix, None);
}

#[test]
fn directories_are_walked_in_order() {
    let dirs = vec![path("/a"), path("/none"), path("/b")];
    let found = walk_dirs(&dirs, |dir| match dir.as_str() {
        "/a" => vec![1, 2],
        "/b" => vec![3],
        _ => vec![],
    });
    assert_eq!(found, vec![1, 2, 3]);
}

#[test]
fn files_are_read_when_they_are_new_or_newer() {
    let dir = path("/data");
    let files = vec![
        ("libold-1.json".to_string(), 10),
        ("libsame-1.json".to_string(), 10),
        ("libnewer-1.json".to_string(), 10),
        ("libnew-1.json".to_string(), 10),
        ("libcore-1.json".to_string(), 10),
    ];
    let times = vec![
        (path("/data/libold-1.json"), 11),
        (path("/data/libsame-1.json"), 10),
        (path("/data/libnewer-1.json"), 12),
        (path("/data/libnewer-1.json"), 9),
        (path("/elsewhere/libnew-1.json"), 20),
    ];
    assert_eq!(
        files_to_read(&dir, &files, &times, &["std", "core"]),
        vec![
            (path("/data/libnewer-1.json"), 10),
            (path("/data/libnew-1.json"), 10),
        ]
    );
    assert_eq!(recorded_time(&times, &path("/data/libnewer-1.json")), Some(9));
    assert_eq!(recorded_time(&times, &path("/data/none")), None);
}

#[test]
fn blacklisted_by_the_name_of_the_crate() {
    assert!(is_blacklisted("libcore-1.json", &["std", "core"]));
    assert!(!is_blacklisted("libcore2-1.json", &["std", "core"]));
    assert!(!is_blacklisted("core-1.json", &["core"]));
    assert!(!is_blacklisted("libcore", &["core"]));
    assert!(!is_blacklisted("libcore-1.json", &[]));
}
