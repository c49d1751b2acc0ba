use std::cell::RefCell;

use rls_analysis::raw::{
    self, CompilerId, CratePreludeData, ExternalCrateData, Import, Ref, Relation, RelationKind,
    SpanData,
};
use rls_analysis::{
    AError, AnalysisHost, AnalysisLoader, DefKind, FilePath, Id, Range, Span, SymbolResult,
};

struct TestLoader {
    prefix: Option<FilePath>,
    hard: bool,
    poisoned_fresh: bool,
}

impl AnalysisLoader for TestLoader {
    fn needs_hard_reload(&self, _path_prefix: &FilePath) -> bool {
        self.hard
    }

    fn fresh_host(&self) -> AnalysisHost<Self> {
        let mut host = AnalysisHost::new_with_loader(TestLoader {
            prefix: self.prefix.clone(),
            hard: self.hard,
            poisoned_fresh: self.poisoned_fresh,
        });
        if self.poisoned_fresh {
            host.poison_master_crate_map();
        }
        host
    }

    fn set_path_prefix(&mut self, path_prefix: &FilePath) {
        self.prefix = Some(path_prefix.clone());
    }

    fn abs_path_prefix(&self) -> Option<FilePath> {
        self.prefix.clone()
    }

    fn iter_paths<F, T>(&self, f: F) -> Vec<T>
    where
        F: Fn(&FilePath) -> Vec<T>,
    {
        f(&path("/data"))
    }
}

fn path(text: &str) -> FilePath {
    FilePath::named(text)
}

fn cid(krate: u32, index: u32) -> CompilerId {
    CompilerId { krate, index }
}

/// Counted from one.
fn data(file: &str, row: u32, start: u32, end: u32) -> SpanData {
    SpanData {
        file_name: path(file),
        line_start: row,
        line_end: row,
        column_start: start,
        column_end: end,
    }
}

/// The same place, counted from zero, in the project.
fn place(file: &str, row: u32, start: u32, end: u32) -> Span {
    Span::new(
        path(&format!("/proj/{}", file)),
        Range {
            row_start: row - 1,
            row_end: row - 1,
            col_start: start - 1,
            col_end: end - 1,
        },
    )
}

fn def(
    kind: DefKind,
    index: u32,
    name: &str,
    qualname: &str,
    parent: Option<u32>,
    span: SpanData,
) -> raw::Def {
    raw::Def {
        kind,
        id: cid(0, index),
        span,
        name: name.to_string(),
        qualname: qualname.to_string(),
        value: format!("value of {}", name),
        parent: parent.map(|p| cid(0, p)),
        children: vec![],
        docs: format!("docs of {}", name),
    }
}

fn prelude(name: &str, externals: &[&str]) -> Option<CratePreludeData> {
    let mut external_crates: Vec<ExternalCrateData> = Vec::new();
    for (i, e) in externals.iter().enumerate() {
        external_crates.push(ExternalCrateData {
            name: e.to_string(),
            num: i as u32 + 1,
        });
    }
    Some(CratePreludeData {
        crate_name: name.to_string(),
        crate_root: "src".to_string(),
        external_crates,
    })
}

fn std_crate() -> raw::Crate {
    let mut string = def(
        DefKind::Struct,
        5,
        "String",
        "::string::String",
        Some(4),
        data("liballoc/string.rs", 261, 12, 18),
    );
    string.span.line_end = 263;
    let analysis = raw::Analysis {
        prelude: prelude("std", &[]),
        imports: vec![],
        defs: vec![
            def(DefKind::Mod, 0, "", "::", None, data("libstd/lib.rs", 1, 1, 2)),
            def(DefKind::Mod, 4, "string", "::string", Some(0), data("liballoc/string.rs", 1, 1, 2)),
            string,
            def(
                DefKind::Method,
                7,
                "push",
                "::string::String::push",
                Some(5),
                data("liballoc/string.rs", 300, 12, 16),
            ),
            def(DefKind::Trait, 6, "Clone", "::Clone", None, data("libcore/clone.rs", 9, 11, 16)),
            def(
                DefKind::Method,
                8,
                "clone",
                "<T as Clone>::clone",
                None,
                data("libcore/clone.rs", 12, 8, 13),
            ),
        ],
        refs: vec![],
        relations: vec![],
        distro_crate: true,
    };
    raw::Crate::new(analysis, 5, path("/data/libstd-1.json"))
}

fn app_crate(time: u128) -> raw::Crate {
    let mut root = def(DefKind::Mod, 0, "", "::", None, data("src/main.rs", 1, 1, 2));
    root.children = vec![cid(0, 1), cid(0, 2), cid(0, 99)];
    let analysis = raw::Analysis {
        prelude: prelude("app", &["std"]),
        imports: vec![
            Import {
                ref_id: None,
                span: data("src/main.rs", 1, 5, 9),
                value: "a, b".to_string(),
            },
            Import {
                ref_id: Some(cid(1, 5)),
                span: data("src/main.rs", 2, 5, 11),
                value: String::new(),
            },
        ],
        defs: vec![
            root,
            def(DefKind::Function, 1, "main", "::main", Some(0), data("src/main.rs", 3, 4, 8)),
            def(DefKind::Struct, 2, "Point", "::Point", Some(0), data("src/main.rs", 6, 8, 13)),
            def(DefKind::Field, 3, "x", "::Point::x", Some(2), data("src/main.rs", 7, 5, 6)),
            def(DefKind::Local, 9, "lost", "::lost", None, data("src/main.rs", 0, 5, 6)),
        ],
        refs: vec![
            Ref {
                span: data("src/main.rs", 4, 9, 14),
                ref_id: cid(0, 2),
            },
            Ref {
                span: data("src/main.rs", 4, 20, 26),
                ref_id: cid(1, 5),
            },
            Ref {
                span: data("src/main.rs", 5, 20, 26),
                ref_id: cid(1, 77),
            },
        ],
        relations: vec![
            Relation {
                span: data("src/main.rs", 9, 1, 2),
                kind: RelationKind::Impl,
                from: cid(0, 2),
                to: cid(1, 6),
            },
            Relation {
                span: data("src/main.rs", 10, 1, 2),
                kind: RelationKind::SuperTrait,
                from: cid(0, 2),
                to: cid(1, 6),
            },
        ],
        distro_crate: false,
    };
    raw::Crate::new(analysis, time, path("/data/libapp-2.json"))
}

fn empty_host(hard: bool) -> AnalysisHost<TestLoader> {
    AnalysisHost::new_with_loader(TestLoader {
        prefix: None,
        hard,
        poisoned_fresh: false,
    })
}

fn loaded(hard: bool) -> AnalysisHost<TestLoader> {
    let mut host = empty_host(hard);
    host.reload(&path("/proj"), &path("/proj"), |_, _, _| {
        vec![std_crate(), app_crate(10)]
    })
    .unwrap();
    host
}

const APP: u64 = 0x1_0000_0000;
const POINT: Id = Id(APP + 2);
const STRING: Id = Id(5);

#[test]
fn queries_fail_before_anything_is_loaded() {
    let host = empty_host(false);
    let span = place("src/main.rs", 6, 8, 13);
    assert_eq!(host.search("Point"), Err(AError::Unclassified));
    assert_eq!(host.goto_def(&span), Err(AError::Unclassified));
    assert_eq!(host.id(&span), Err(AError::Unclassified));
    assert_eq!(host.def_roots(), Err(AError::Unclassified));
    assert_eq!(host.find_impls(POINT), Err(AError::Unclassified));
    assert_eq!(host.symbols(&path("/proj/src/main.rs")), Err(AError::Unclassified));
    assert_eq!(host.for_each_child_def(POINT, |id, _| id), Err(AError::Unclassified));
    assert_eq!(host.src_url(&span), Err(AError::Unclassified));
}

#[test]
fn queries_fail_behind_a_poisoned_lock() {
    let mut host = loaded(false);
    assert!(host.has_def(POINT));
    host.poison_analysis();
    assert!(!host.has_def(POINT));
    let span = place("src/main.rs", 6, 8, 13);
    assert_eq!(host.search("Point"), Err(AError::MutexPoison));
    assert_eq!(host.get_def(POINT), Err(AError::MutexPoison));
    assert_eq!(host.doc_url(&span), Err(AError::MutexPoison));
    assert_eq!(host.def_parents(POINT), Err(AError::MutexPoison));
    assert_eq!(
        host.reload(&path("/proj"), &path("/proj"), |_, _, _| vec![]),
        Err(AError::MutexPoison)
    );
    assert_eq!(
        host.hard_reload(&path("/proj"), &path("/proj"), |_, _, _| vec![]),
        Err(AError::MutexPoison)
    );
}

#[test]
fn poisoned_numbers_stop_a_reload() {
    let mut host = loaded(false);
    host.poison_master_crate_map();
    assert_eq!(
        host.reload(&path("/proj"), &path("/proj"), |_, _, _| vec![app_crate(20)]),
        Err(AError::MutexPoison)
    );
    assert_eq!(
        host.hard_reload(&path("/proj"), &path("/proj"), |_, _, _| vec![app_crate(20)]),
        Err(AError::MutexPoison)
    );
    assert!(host.has_def(POINT));
}

/// A host with data whose loader gives fresh hosts with poisoned numbers.
fn loaded_with_poisoned_fresh() -> AnalysisHost<TestLoader> {
    let mut host = AnalysisHost::new_with_loader(TestLoader {
        prefix: None,
        hard: false,
        poisoned_fresh: true,
    });
    let krates = vec![std_crate(), app_crate(10)];
    host.finish_hard_reload(empty_host(false), &krates, &path("/proj")).unwrap();
    assert!(host.has_def(POINT));
    host
}

#[test]
fn the_own_lock_is_asked_before_the_fresh_one() {
    let mut host = loaded_with_poisoned_fresh();
    host.poison_master_crate_map();
    assert_eq!(
        host.hard_reload(&path("/proj"), &path("/proj"), |_, _, _| vec![]),
        Err(AError::MutexPoison)
    );
    assert!(host.has_def(POINT));
    assert_eq!(host.search_for_id("Point"), Ok(vec![POINT]));
}

#[test]
fn poisoned_fresh_numbers_cannot_be_taken_over() {
    let mut host = loaded_with_poisoned_fresh();
    assert_eq!(
        host.hard_reload(&path("/proj"), &path("/proj"), |_, _, _| vec![]),
        Err(AError::MutexPoison)
    );
    assert_eq!(host.search_for_id("Point"), Err(AError::Unclassified));
}

#[test]
fn nothing_is_lowered_on_poisoned_fresh_numbers() {
    let mut host = loaded_with_poisoned_fresh();
    host.poison_master_crate_map();
    assert_eq!(
        host.hard_reload(&path("/proj"), &path("/proj"), |_, _, _| vec![app_crate(20)]),
        Err(AError::MutexPoison)
    );
    assert_eq!(host.search_for_id("Point"), Err(AError::Unclassified));
}

#[test]
fn ids_at_spans() {
    let host = loaded(false);
    assert_eq!(host.id(&place("src/main.rs", 6, 8, 13)), Ok(POINT));
    assert_eq!(host.id(&place("src/main.rs", 4, 9, 14)), Ok(POINT));
    assert_eq!(host.id(&place("src/main.rs", 4, 20, 26)), Ok(STRING));
    assert_eq!(host.id(&place("src/main.rs", 2, 5, 11)), Ok(STRING));
    assert_eq!(host.id(&place("src/main.rs", 5, 20, 26)), Err(AError::Unclassified));
    assert_eq!(host.id(&place("src/other.rs", 6, 8, 13)), Err(AError::Unclassified));
}

#[test]
fn crate_local_ids_are_of_the_same_crate() {
    let host = loaded(false);
    assert_eq!(host.crate_local_id(&place("src/main.rs", 4, 9, 14)), Ok(POINT));
    assert_eq!(
        host.crate_local_id(&place("src/main.rs", 4, 20, 26)),
        Err(AError::Unclassified)
    );
}

#[test]
fn definitions_by_span() {
    let host = loaded(false);
    let at = place("src/main.rs", 4, 9, 14);
    assert_eq!(host.goto_def(&at), Ok(place("src/main.rs", 6, 8, 13)));
    assert_eq!(host.show_type(&at), Ok("value of Point".to_string()));
    assert_eq!(host.docs(&at), Ok("docs of Point".to_string()));
    let glob = place("src/main.rs", 1, 5, 9);
    assert_eq!(host.goto_def(&glob), Err(AError::Unclassified));
    assert_eq!(host.show_type(&glob), Ok("a, b".to_string()));
    assert_eq!(host.docs(&glob), Err(AError::Unclassified));
}

#[test]
fn a_known_definition_need_not_be_one_to_go_to() {
    let mut host = empty_host(false);
    host.reload(&path("/proj"), &path("/proj"), |_, _, _| {
        let mut krate = app_crate(10);
        let taken = data("src/main.rs", 3, 4, 8);
        krate.analysis.defs.push(def(DefKind::Const, 20, "AGAIN", "::AGAIN", None, taken));
        vec![std_crate(), krate]
    })
    .unwrap();
    assert!(host.has_def(Id(APP + 1)));
    assert!(host.has_def(Id(APP + 20)));
    let span = place("src/main.rs", 3, 4, 8);
    assert_eq!(host.id(&span), Ok(Id(APP + 20)));
    assert_eq!(host.docs(&span), Ok("docs of AGAIN".to_string()));
}

#[test]
fn definitions_by_id() {
    let host = loaded(false);
    let point = host.get_def(POINT).unwrap();
    assert_eq!(point.name, "Point");
    assert_eq!(point.qualname, "app::Point");
    assert_eq!(point.kind, DefKind::Struct);
    assert_eq!(point.parent, Some(Id(APP)));
    assert!(!point.distro_crate);
    assert_eq!(point.span, place("src/main.rs", 6, 8, 13));
    assert!(host.has_def(STRING));
    assert!(!host.has_def(Id(4711)));
    assert!(!host.has_def(Id::null()));
    assert_eq!(host.get_def(Id(4711)), Err(AError::Unclassified));
}

#[test]
fn what_has_no_proper_span_is_passed_over() {
    let host = loaded(false);
    assert!(!host.has_def(Id(APP + 9)));
    assert_eq!(host.search_for_id("lost"), Ok(vec![]));
}

#[test]
fn references_by_span_and_by_id() {
    let host = loaded(false);
    let here = place("src/main.rs", 6, 8, 13);
    let used = place("src/main.rs", 4, 9, 14);
    assert_eq!(host.find_all_refs(&used, true), Ok(vec![here.clone(), used.clone()]));
    assert_eq!(host.find_all_refs(&used, false), Ok(vec![used.clone()]));
    assert_eq!(host.find_all_refs_by_id(POINT), Ok(vec![here, used]));
    let main = place("src/main.rs", 3, 4, 8);
    assert_eq!(host.find_all_refs(&main, true), Ok(vec![main.clone()]));
    assert_eq!(host.find_all_refs(&main, false), Ok(vec![]));
    assert_eq!(host.find_all_refs_by_id(Id(4711)), Err(AError::Unclassified));
    assert_eq!(
        host.find_all_refs(&place("src/main.rs", 90, 1, 2), false),
        Err(AError::Unclassified)
    );
}

#[test]
fn search_gives_the_definition_first() {
    let host = loaded(false);
    let mut string = place("liballoc/string.rs", 261, 12, 18);
    string.range.row_end = 262;
    assert_eq!(
        host.search("String"),
        Ok(vec![
            string,
            place("src/main.rs", 2, 5, 11),
            place("src/main.rs", 4, 20, 26),
        ])
    );
    assert_eq!(host.search("nothing"), Ok(vec![]));
}

#[test]
fn names_lead_to_ids_and_definitions() {
    let host = loaded(false);
    assert_eq!(host.search_for_id(""), Ok(vec![Id(0), Id(APP)]));
    assert_eq!(host.search_for_id("Point"), Ok(vec![POINT]));
    let roots = host.name_defs("").unwrap();
    assert_eq!(roots.len(), 2);
    assert_eq!(roots[0].qualname, "std::");
    assert_eq!(roots[1].qualname, "app::");
    assert_eq!(host.name_defs("nothing"), Ok(vec![]));
}

#[test]
fn outline_of_a_file() {
    let host = loaded(false);
    let symbols = host.symbols(&path("/proj/src/main.rs")).unwrap();
    let names: Vec<&str> = symbols.iter().map(|s| s.name.as_str()).collect();
    assert_eq!(names, vec!["", "main", "Point", "x"]);
    assert_eq!(
        symbols[2],
        SymbolResult {
            id: POINT,
            name: "Point".to_string(),
            kind: DefKind::Struct,
            span: place("src/main.rs", 6, 8, 13),
        }
    );
    assert_eq!(host.symbols(&path("src/main.rs")), Err(AError::Unclassified));
}

#[test]
fn children_in_order() {
    let host = loaded(false);
    let children = host.for_each_child_def(Id(APP), |id, def| (id, def.name.clone()));
    assert_eq!(
        children,
        Ok(vec![
            (Id(APP + 1), "main".to_string()),
            (POINT, "Point".to_string()),
        ])
    );
    assert_eq!(host.for_each_child_def(Id(4711), |id, _| id), Ok(vec![]));
}

#[test]
fn the_function_on_children_may_change_what_it_captures() {
    let host = loaded(false);
    let mut names: Vec<String> = Vec::new();
    let counted = host.for_each_child_def(Id(APP), |_, def| {
        names.push(def.name.clone());
        names.len()
    });
    assert_eq!(counted, Ok(vec![1, 2]));
    assert_eq!(names, vec!["main", "Point"]);
    let mut called = false;
    let none = empty_host(false).for_each_child_def(Id(APP), |_, _| called = true);
    assert_eq!(none, Err(AError::Unclassified));
    assert!(!called);
}

#[test]
fn ancestors_from_the_outermost() {
    let host = loaded(false);
    let x = Id(APP + 3);
    assert!(host.def_parents_end(x));
    assert_eq!(
        host.def_parents(x),
        Ok(vec![(Id(APP), "".to_string()), (POINT, "Point".to_string())])
    );
    assert_eq!(host.def_parents(Id(APP)), Ok(vec![]));
    assert_eq!(host.def_parents(Id(4711)), Ok(vec![]));
}

#[test]
fn roots_of_crates() {
    let host = loaded(false);
    assert_eq!(
        host.def_roots(),
        Ok(vec![(Id(0), "std".to_string()), (Id(APP), "app".to_string())])
    );
}

#[test]
fn implementations_of_both_ends() {
    let host = loaded(false);
    assert_eq!(host.find_impls(POINT), Ok(vec![place("src/main.rs", 9, 1, 2)]));
    assert_eq!(host.find_impls(Id(6)), Ok(vec![place("src/main.rs", 9, 1, 2)]));
    assert_eq!(host.find_impls(STRING), Ok(vec![]));
}

#[test]
fn documentation_on_the_web() {
    let host = loaded(false);
    let string = place("src/main.rs", 4, 20, 26);
    assert!(host.doc_url_ends(&string));
    assert_eq!(
        host.doc_url(&string),
        Ok("https://doc.rust-lang.org/nightly/std/string/String.t.html".to_string())
    );
    let push = place("liballoc/string.rs", 300, 12, 16);
    assert!(host.doc_url_ends(&push));
    assert_eq!(
        host.doc_url(&push),
        Ok("https://doc.rust-lang.org/nightly/std/string/String.t.html#push.v".to_string())
    );
    assert_eq!(
        host.doc_url(&place("liballoc/string.rs", 1, 1, 2)),
        Ok("https://doc.rust-lang.org/nightly/std/string/".to_string())
    );
    assert_eq!(
        host.doc_url(&place("libcore/clone.rs", 9, 11, 16)),
        Ok("https://doc.rust-lang.org/nightly/std/Clone.t.html".to_string())
    );
    assert_eq!(
        host.doc_url(&place("libcore/clone.rs", 12, 8, 13)),
        Err(AError::Unclassified)
    );
    assert_eq!(
        host.doc_url(&place("src/main.rs", 6, 8, 13)),
        Err(AError::Unclassified)
    );
}

#[test]
fn source_on_the_web() {
    let host = loaded(false);
    let string = place("src/main.rs", 4, 20, 26);
    let url = "https://github.com/rust-lang/rust/blob/master/src/liballoc/string.rs#L261-L263";
    assert_eq!(host.src_url(&string), Ok(url.to_string()));
    assert_eq!(host.src_url_under(&string, Some(&path("/proj"))), Ok(url.to_string()));
    assert_eq!(
        host.src_url_under(&string, Some(&path("/elsewhere"))),
        Err(AError::Unclassified)
    );
    assert_eq!(host.src_url_under(&string, None), Err(AError::Unclassified));
    assert_eq!(
        host.src_url(&place("src/main.rs", 6, 8, 13)),
        Err(AError::Unclassified)
    );
}

#[test]
fn paths_are_kept_as_written_and_found_by_their_parts() {
    let mut host = empty_host(false);
    host.reload(&path("/proj"), &path("/proj/"), |_, _, _| {
        let mut krate = std_crate();
        krate.analysis.defs[2].span.file_name = path("./src//string.rs");
        vec![krate]
    })
    .unwrap();
    let mut span = place("src/string.rs", 261, 12, 18);
    span.range.row_end = 262;
    assert_eq!(host.goto_def(&span).unwrap().file.as_str(), "/proj/./src//string.rs");
    assert_eq!(host.symbols(&path("/proj//src/string.rs")).unwrap().len(), 1);
    assert_eq!(
        host.src_url(&span),
        Ok("https://github.com/rust-lang/rust/blob/master/src/src//string.rs#L261-L263".to_string())
    );
}

#[test]
fn a_crate_is_the_same_however_its_path_is_written() {
    let mut host = loaded(false);
    let seen: RefCell<Vec<String>> = RefCell::new(vec![]);
    host.reload(&path("/proj"), &path("/proj"), |_, _, _| {
        let mut krate = app_crate(20);
        krate.path = path("/data//libapp-2.json");
        krate.analysis.defs.truncate(2);
        vec![krate]
    })
    .unwrap();
    host.reload(&path("/proj"), &path("/proj"), |_, times, _| {
        *seen.borrow_mut() = times
            .iter()
            .map(|t| format!("{} {}", t.0.as_str(), t.1))
            .collect();
        vec![]
    })
    .unwrap();
    assert_eq!(
        seen.into_inner(),
        vec!["/data/libstd-1.json 5", "/data/libapp-2.json 20"]
    );
    assert!(!host.has_def(POINT));
}

#[test]
fn definitions_inside_themselves() {
    let mut host = empty_host(false);
    host.reload(&path("/proj"), &path("/proj"), |_, _, _| {
        let mut krate = std_crate();
        let span = data("a.rs", 1, 1, 2);
        krate.analysis.defs = vec![
            def(DefKind::Method, 1, "a", "::a", Some(2), span),
            def(DefKind::Method, 2, "b", "::b", Some(1), data("a.rs", 2, 1, 2)),
            def(DefKind::Struct, 3, "c", "::c", Some(1), data("a.rs", 3, 1, 2)),
        ];
        vec![krate]
    })
    .unwrap();
    assert!(!host.def_parents_end(Id(1)));
    assert!(!host.def_parents_end(Id(3)));
    assert!(host.def_parents_end(Id(4)));
    assert!(!host.doc_url_ends(&place("a.rs", 1, 1, 2)));
    assert!(host.doc_url_ends(&place("a.rs", 3, 1, 2)));
    assert_eq!(
        host.doc_url(&place("a.rs", 3, 1, 2)),
        Ok("https://doc.rust-lang.org/nightly/std/a/c.t.html".to_string())
    );
}

#[test]
fn reload_reads_only_what_is_newer() {
    let mut host = loaded(false);
    let seen: RefCell<Vec<(FilePath, u128)>> = RefCell::new(vec![]);
    host.reload_with_blacklist(&path("/proj"), &path("/proj"), &["core"], |loader, times, list| {
        assert_eq!(loader.prefix, Some(path("/proj")));
        assert_eq!(list, &["core"]);
        *seen.borrow_mut() = times.iter().map(|t| (t.0.clone(), t.1)).collect();
        let mut krate = app_crate(20);
        krate.analysis.defs.truncate(2);
        vec![krate]
    })
    .unwrap();
    assert_eq!(
        seen.into_inner(),
        vec![(path("/data/libstd-1.json"), 5), (path("/data/libapp-2.json"), 10)]
    );
    assert!(host.has_def(STRING));
    assert!(host.has_def(Id(APP + 1)));
    assert!(!host.has_def(POINT));
    let again: RefCell<Vec<u128>> = RefCell::new(vec![]);
    host.reload(&path("/proj"), &path("/proj"), |_, times, list| {
        assert!(list.is_empty());
        *again.borrow_mut() = times.iter().map(|t| t.1).collect();
        vec![]
    })
    .unwrap();
    assert_eq!(again.into_inner(), vec![5, 20]);
}

#[test]
fn hard_reload_forgets_what_was_loaded() {
    let mut host = loaded(true);
    host.reload(&path("/new"), &path("/proj"), |loader, times, _| {
        assert_eq!(loader.prefix, Some(path("/new")));
        assert!(times.is_empty());
        vec![app_crate(20)]
    })
    .unwrap();
    assert_eq!(host.loader().prefix, Some(path("/new")));
    assert!(!host.has_def(STRING));
    assert_eq!(host.search_for_id("Point"), Ok(vec![Id(2)]));
}

#[test]
fn a_failed_hard_reload_leaves_nothing() {
    let mut host = loaded(false);
    let r = host.hard_reload(&path("/proj"), &path("/proj"), |_, _, _| {
        let mut broken = app_crate(20);
        broken.analysis.prelude = None;
        vec![std_crate(), broken]
    });
    assert_eq!(r, Err(AError::Unclassified));
    assert_eq!(host.search("String"), Err(AError::Unclassified));
    assert_eq!(host.def_roots(), Err(AError::Unclassified));
}

#[test]
fn a_failed_reload_keeps_what_came_before() {
    let mut host = loaded(false);
    let r = host.reload(&path("/proj"), &path("/proj"), |_, _, _| {
        let mut gap = app_crate(30);
        gap.analysis.prelude = prelude("gap", &["std"]);
        if let Some(p) = &mut gap.analysis.prelude {
            p.external_crates[0].num = 2;
        }
        let mut first = app_crate(20);
        first.analysis.defs.truncate(2);
        vec![first, gap]
    });
    assert_eq!(r, Err(AError::Unclassified));
    assert!(host.has_def(STRING));
    assert!(host.has_def(Id(APP + 1)));
    assert!(!host.has_def(POINT));
}

#[test]
fn analysis_can_be_handed_over() {
    let mut host = loaded(false);
    let mut extra = app_crate(0).analysis;
    extra.prelude = prelude("extra", &["app", "std"]);
    extra.refs = vec![Ref {
        span: data("src/extra.rs", 1, 1, 2),
        ref_id: cid(1, 2),
    }];
    host.reload_from_analysis(extra, &path("/proj"), &path("/proj"), &[], |_, _, _| vec![])
        .unwrap();
    assert_eq!(host.id(&place("src/extra.rs", 1, 1, 2)), Ok(POINT));
    assert!(host.has_def(Id(2 * APP + 1)));
    let times: RefCell<Vec<(FilePath, u128)>> = RefCell::new(vec![]);
    host.reload(&path("/proj"), &path("/proj"), |_, t, _| {
        *times.borrow_mut() = t.iter().map(|t| (t.0.clone(), t.1)).collect();
        vec![]
    })
    .unwrap();
    let times = times.into_inner();
    assert_eq!(times.len(), 3);
    assert_eq!(times[2].0, path("GOWNO"));
    assert!(times[2].1 > 1_500_000_000_000_000_000);
}

#[test]
fn a_failed_reload_hands_nothing_over() {
    let mut host = empty_host(false);
    let r = host.reload_from_analysis(
        app_crate(0).analysis,
        &path("/proj"),
        &path("/proj"),
        &[],
        |_, _, _| {
            let mut broken = app_crate(20);
            broken.analysis.prelude = None;
            vec![broken]
        },
    );
    assert_eq!(r, Err(AError::Unclassified));
    assert_eq!(host.search_for_id("Point"), Err(AError::Unclassified));
}

#[test]
fn a_failed_reload_does_not_look_at_what_is_handed_over() {
    let mut host = loaded(true);
    let mut nameless = app_crate(0).analysis;
    nameless.prelude = None;
    let r = host.reload_from_analysis(nameless, &path("/proj"), &path("/proj"), &[], |_, _, _| {
        let mut broken = app_crate(20);
        broken.analysis.prelude = None;
        vec![std_crate(), broken]
    });
    assert_eq!(r, Err(AError::Unclassified));
    assert_eq!(host.def_roots(), Err(AError::Unclassified));
    host.poison_analysis();
    let mut nameless = app_crate(0).analysis;
    nameless.prelude = None;
    let r = host.reload_from_analysis(nameless, &path("/proj"), &path("/proj"), &[], |_, _, _| {
        vec![]
    });
    assert_eq!(r, Err(AError::MutexPoison));
}

#[test]
fn ids_stay_the_same_when_a_crate_is_loaded_again() {
    let mut host = loaded(false);
    let before = host.id(&place("src/main.rs", 4, 20, 26));
    host.reload(&path("/proj"), &path("/proj"), |_, _, _| {
        let mut other = app_crate(30);
        other.analysis.prelude = prelude("other", &["core", "std"]);
        other.analysis.refs = vec![Ref {
            span: data("src/other.rs", 1, 1, 2),
            ref_id: cid(2, 5),
        }];
        other.path = path("/data/libother-3.json");
        vec![other, app_crate(20)]
    })
    .unwrap();
    assert_eq!(host.id(&place("src/main.rs", 4, 20, 26)), before);
    assert_eq!(host.id(&place("src/other.rs", 1, 1, 2)), before);
    assert_eq!(
        host.search_for_id("Point"),
        Ok(vec![POINT, Id(2 * APP + 2)])
    );
}
