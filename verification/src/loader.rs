//! Where the analysis data of a project is.
use vstd::prelude::*;

use crate::host::AnalysisHost;
use crate::path::{FilePath, PathView};

verus! {

/// Knows where a project is and where its analysis data lies.
pub trait AnalysisLoader: Sized {
    /// Whether what is loaded is of no use for a project.
    fn needs_hard_reload(&self, path_prefix: &FilePath) -> bool;

    /// A host without data for the same project.
    fn fresh_host(&self) -> AnalysisHost<Self>;

    /// Turns to a project.
    fn set_path_prefix(&mut self, path_prefix: &FilePath);

    /// The directory of the project, from the root.
    fn abs_path_prefix(&self) -> Option<FilePath>;

    /// Calls a function on each directory with analysis data and puts the
    /// results one behind the other.
    fn iter_paths<F, T>(&self, f: F) -> Vec<T> where F: Fn(&FilePath) -> Vec<T>
        requires
            forall|path: &FilePath| #[trigger] call_requires(f, (path,)),
    ;
}

/// The path that is written so.
pub open spec fn named(text: &str) -> PathView {
    PathView { text: text@ }
}

/// The profile that a project is built with.
#[derive(Copy, Clone, PartialEq, Eq, Structural, Debug)]
pub enum Target {
    Debug,
    Release,
}

impl Target {
    /// The name of the directory of a profile.
    pub open spec fn dir(self) -> PathView {
        match self {
            Target::Debug => named("debug"),
            Target::Release => named("release"),
        }
    }
}

/// The loader for a project that is built with Cargo.
pub struct CargoAnalysisLoader {
    pub path_prefix: Option<FilePath>,
    pub target: Target,
}

impl CargoAnalysisLoader {
    /// The directories with the analysis data of a project: first that of the
    /// crates it depends on, then its own.
    pub open spec fn dirs(&self) -> Seq<PathView> {
        match self.path_prefix {
            Some(prefix) => {
                let rls = prefix@.join(named("target")).join(named("rls")).join(self.target.dir());
                let own = named("save-analysis");
                seq![rls.join(named("deps")).join(own), rls.join(own)]
            },
            None => Seq::empty(),
        }
    }

    /// The directories with the analysis data of the project.
    pub fn search_dirs(&self) -> (r: Vec<FilePath>)
        ensures
            r.deep_view() == self.dirs(),
    {
        let mut r: Vec<FilePath> = Vec::new();
        if let Some(prefix) = &self.path_prefix {
            let target = match self.target {
                Target::Debug => "debug",
                Target::Release => "release",
            };
            let rls = prefix.join(&FilePath::named("target")).join(&FilePath::named("rls")).join(
                &FilePath::named(target),
            );
            let own = FilePath::named("save-analysis");
            let deps = rls.join(&FilePath::named("deps")).join(&own);
            let principal = rls.join(&own);
            assert(deps@ =~= self.dirs()[0]);
            assert(principal@ =~= self.dirs()[1]);
            r.push(deps);
            r.push(principal);
        }
        assert(r.deep_view() =~= self.dirs());
        r
    }
}

/// Whether a function may give these results on a directory.
pub open spec fn gives<F, T>(f: F, dir: PathView, r: Seq<T>) -> bool where
    F: Fn(&FilePath) -> Vec<T>,
 {
    exists|path: FilePath, found: Vec<T>|
        path@ == dir && found@ == r && #[trigger] call_ensures(f, (&path,), found)
}

/// Whether a function may give these results on some directories.
pub open spec fn gives_each<F, T>(f: F, dirs: Seq<PathView>, r: Seq<Seq<T>>) -> bool where
    F: Fn(&FilePath) -> Vec<T>,
 {
    &&& r.len() == dirs.len()
    &&& forall|i: int| 0 <= i < r.len() ==> gives(f, dirs[i], #[trigger] r[i])
}

/// Whether these are the results of a function on some directories, one behind
/// the other.
pub open spec fn walked<F, T>(f: F, dirs: Seq<PathView>, r: Seq<T>) -> bool where
    F: Fn(&FilePath) -> Vec<T>,
 {
    exists|each: Seq<Seq<T>>| #[trigger] gives_each(f, dirs, each) && r == each.flatten()
}

impl AnalysisLoader for CargoAnalysisLoader {
    fn needs_hard_reload(&self, path_prefix: &FilePath) -> (b: bool)
        ensures
            b == (match self.path_prefix {
                Some(prefix) => prefix@.key() != path_prefix@.key(),
                None => true,
            }),
    {
        match &self.path_prefix {
            Some(prefix) => !prefix.same(path_prefix),
            None => true,
        }
    }

    fn fresh_host(&self) -> (h: AnalysisHost<CargoAnalysisLoader>)
        ensures
            h@.is_blank(),
            h.loader_spec().path_prefix.deep_view() == self.path_prefix.deep_view(),
            h.loader_spec().target == self.target,
    {
        let path_prefix = match &self.path_prefix {
            Some(prefix) => Some(prefix.clone()),
            None => None,
        };
        AnalysisHost::new_with_loader(CargoAnalysisLoader { path_prefix, target: self.target })
    }

    fn set_path_prefix(&mut self, path_prefix: &FilePath)
        ensures
            final(self).path_prefix.deep_view() == Some(path_prefix@),
            final(self).target == old(self).target,
    {
        self.path_prefix = Some(path_prefix.clone());
    }

    fn abs_path_prefix(&self) -> (r: Option<FilePath>)
        ensures
            r.deep_view() == self.path_prefix.deep_view(),
    {
        match &self.path_prefix {
            Some(prefix) => Some(prefix.clone()),
            None => None,
        }
    }

    fn iter_paths<F, T>(&self, f: F) -> (r: Vec<T>) where F: Fn(&FilePath) -> Vec<T>
        ensures
            walked(f, self.dirs(), r@),
    {
        walk_dirs(&self.search_dirs(), f)
    }
}

/// Calls a function on some directories, one after the other, and puts the results
/// one behind the other.
pub fn walk_dirs<F, T>(dirs: &Vec<FilePath>, f: F) -> (r: Vec<T>) where
    F: Fn(&FilePath) -> Vec<T>,

    requires
        forall|path: &FilePath| #[trigger] call_requires(f, (path,)),
    ensures
        walked(f, dirs.deep_view(), r@),
{
    let ghost paths = dirs.deep_view();
    let mut r: Vec<T> = Vec::new();
    let ghost mut each: Seq<Seq<T>> = Seq::empty();
    for i in 0..dirs.len()
        invariant
            paths == dirs.deep_view(),
            forall|path: &FilePath| #[trigger] call_requires(f, (path,)),
            gives_each(f, paths.take(i as int), each),
            r@ == each.flatten(),
    {
        let mut more = f(&dirs[i]);
        proof {
            let ghost path = dirs@[i as int];
            assert(path@ == paths[i as int]);
            assert(call_ensures(f, (&path,), more));
            assert(gives(f, path@, more@));
            each.lemma_flatten_push(more@);
            each = each.push(more@);
        }
        r.append(&mut more);
    }
    assert(paths.take(dirs@.len() as int) =~= paths);
    r
}

} // verus!
