//! The host: the analysis of a project, loaded and reloaded, and the queries
//! that are asked of it.
use vstd::prelude::*;
use vstd::hash_map::StringHashMap;

use crate::analysis::{Analysis, AnalysisView};
use crate::basics::{AError, AResult, Guarded};
use crate::laws::law_reload_loads_something;
use crate::loader::{AnalysisLoader, CargoAnalysisLoader, Target};
use crate::lowering::{can_lower, crate_id, lower_crate, lowered_crate, numbers_after};
use crate::path::{FilePath, PathView};
use crate::raw;

verus! {

/// What a host holds, but for its loader.
#[verifier::ext_equal]
pub ghost struct HostView {
    /// The analysis, once something is loaded.
    pub analysis: Option<AnalysisView>,
    /// Whether the lock of the analysis is poisoned.
    pub analysis_poisoned: bool,
    /// The number of each crate that was ever met.
    pub numbers: Map<Seq<char>, u32>,
    /// Whether the lock of the numbers is poisoned.
    pub numbers_poisoned: bool,
}

impl HostView {
    /// Whether nothing was loaded and no lock is poisoned.
    pub open spec fn is_blank(self) -> bool {
        &&& self.analysis is None
        &&& !self.analysis_poisoned
        &&& self.numbers == Map::<Seq<char>, u32>::empty()
        &&& !self.numbers_poisoned
    }

    /// What a query answers: it fails where the lock is poisoned, where nothing
    /// is loaded and where there is no answer.
    pub open spec fn query<T>(self, ask: spec_fn(AnalysisView) -> Option<T>) -> AResult<T> {
        if self.analysis_poisoned {
            Err(AError::MutexPoison)
        } else {
            match self.analysis {
                Some(a) => match ask(a) {
                    Some(answer) => Ok(answer),
                    None => Err(AError::Unclassified),
                },
                None => Err(AError::Unclassified),
            }
        }
    }

    /// The analysis, where it can be read.
    pub open spec fn known(self) -> Option<AnalysisView> {
        if self.analysis_poisoned {
            None
        } else {
            self.analysis
        }
    }

    /// The host after a crate was lowered and recorded.
    pub open spec fn lower_one(self, krate: raw::Crate, base_dir: PathView) -> (
        HostView,
        AResult<()>,
    ) {
        if self.numbers_poisoned {
            (self, Err(AError::MutexPoison))
        } else if !can_lower(self.numbers, krate) {
            (self, Err(AError::Unclassified))
        } else {
            let numbered = HostView { numbers: numbers_after(self.numbers, krate), ..self };
            if self.analysis_poisoned {
                (numbered, Err(AError::MutexPoison))
            } else {
                let data = lowered_crate(self.numbers, self.known(), krate, base_dir);
                (
                    HostView {
                        analysis: Some(self.analysis->0.update(crate_id(krate), data)),
                        ..numbered
                    },
                    Ok(()),
                )
            }
        }
    }

    /// The host after some crates were lowered and recorded, one after the other
    /// up to the first that fails.
    pub open spec fn lower_all(self, krates: Seq<raw::Crate>, base_dir: PathView) -> (
        HostView,
        AResult<()>,
    )
        decreases krates.len(),
    {
        if krates.len() == 0 {
            (self, Ok(()))
        } else {
            let (next, result) = self.lower_one(krates[0], base_dir);
            match result {
                Ok(_) => next.lower_all(krates.skip(1), base_dir),
                Err(e) => (next, Err(e)),
            }
        }
    }

    /// The host, with an analysis without crates.
    pub open spec fn emptied(self) -> HostView {
        HostView { analysis: Some(AnalysisView::blank()), analysis_poisoned: false, ..self }
    }

    /// The host after all of its data was replaced by some crates, which are
    /// lowered on a fresh host first. Where one fails, nothing stays loaded. Once
    /// all are lowered the host's own locks are asked for, that of the numbers
    /// first; where one is poisoned, what it guards and what comes after it stay.
    /// Where only the numbers of the fresh host are poisoned there is nothing to
    /// take over, and nothing stays loaded either.
    pub open spec fn hard_reload(
        self,
        fresh: HostView,
        krates: Seq<raw::Crate>,
        base_dir: PathView,
    ) -> (HostView, AResult<()>) {
        let (filled, lowered) = fresh.emptied().lower_all(krates, base_dir);
        let result = if lowered is Ok && !self.numbers_poisoned && filled.numbers_poisoned {
            Err(AError::MutexPoison)
        } else {
            lowered
        };
        match result {
            Err(e) => if self.analysis_poisoned {
                (self, Err(AError::MutexPoison))
            } else {
                (HostView { analysis: None, ..self }, Err(e))
            },
            Ok(_) => if self.numbers_poisoned {
                (self, Err(AError::MutexPoison))
            } else if self.analysis_poisoned {
                (HostView { numbers: filled.numbers, ..self }, Err(AError::MutexPoison))
            } else {
                (
                    HostView { numbers: filled.numbers, analysis: filled.analysis, ..self },
                    Ok(()),
                )
            },
        }
    }

    /// Lowering leaves the locks as they are, and an analysis that is there
    /// stays there.
    pub proof fn lemma_lower_all(self, krates: Seq<raw::Crate>, base_dir: PathView)
        ensures
            self.lower_all(krates, base_dir).0.analysis_poisoned == self.analysis_poisoned,
            self.lower_all(krates, base_dir).0.numbers_poisoned == self.numbers_poisoned,
            self.analysis is Some ==> self.lower_all(krates, base_dir).0.analysis is Some,
        decreases krates.len(),
    {
        if krates.len() > 0 {
            let (next, result) = self.lower_one(krates[0], base_dir);
            if result is Ok {
                next.lemma_lower_all(krates.skip(1), base_dir);
            }
        }
    }
}

/// The analysis of a project.
pub struct AnalysisHost<L = CargoAnalysisLoader> {
    analysis: Guarded<Option<Analysis>>,
    master_crate_map: Guarded<StringHashMap<u32>>,
    loader: L,
}

impl<L> View for AnalysisHost<L> {
    type V = HostView;

    closed spec fn view(&self) -> HostView {
        HostView {
            analysis: self.analysis.value().deep_view(),
            analysis_poisoned: self.analysis.is_poisoned(),
            numbers: self.master_crate_map.value()@,
            numbers_poisoned: self.master_crate_map.is_poisoned(),
        }
    }
}

impl AnalysisHost<CargoAnalysisLoader> {
    /// A host for a project that is built with Cargo.
    pub fn new(target: Target) -> (h: AnalysisHost<CargoAnalysisLoader>)
        ensures
            h@.is_blank(),
            h.loader_spec() == (CargoAnalysisLoader { path_prefix: None, target }),
    {
        AnalysisHost::new_with_loader(CargoAnalysisLoader { path_prefix: None, target })
    }
}

impl<L> AnalysisHost<L> {
    /// The loader of a host.
    pub closed spec fn loader_spec(&self) -> L {
        self.loader
    }

    /// A host with a loader of one's own.
    pub fn new_with_loader(loader: L) -> (h: AnalysisHost<L>)
        ensures
            h@.is_blank(),
            h.loader_spec() == loader,
    {
        AnalysisHost {
            analysis: Guarded::new(None),
            master_crate_map: Guarded::new(StringHashMap::new()),
            loader,
        }
    }

    /// Asks a question of the analysis.
    pub fn with_analysis<F, T>(&self, f: F) -> (r: AResult<T>) where
        F: FnOnce(&Analysis) -> Option<T>,

        requires
            forall|a: &Analysis| self@.known() == Some(a@) ==> #[trigger] call_requires(f, (a,)),
        ensures
            self@.analysis_poisoned ==> r == Err::<T, AError>(AError::MutexPoison),
            !self@.analysis_poisoned && self@.analysis is None ==> r == Err::<T, AError>(
                AError::Unclassified,
            ),
            !self@.analysis_poisoned && self@.analysis is Some ==> exists|
                a: &Analysis,
                answer: Option<T>,
            |
                {
                    &&& Some(a@) == self@.analysis
                    &&& #[trigger] call_ensures(f, (a,), answer)
                    &&& r == (match answer {
                        Some(t) => Ok::<T, AError>(t),
                        None => Err::<T, AError>(AError::Unclassified),
                    })
                },
    {
        match self.analysis.lock() {
            Ok(Some(a)) => f(a).ok_or(AError::Unclassified),
            Ok(None) => Err(AError::Unclassified),
            Err(e) => Err(e),
        }
    }

    /// The loader of a host.
    pub fn loader(&self) -> (l: &L)
        ensures
            *l == self.loader_spec(),
    {
        &self.loader
    }

    /// Records that a holder of the lock of the analysis panicked.
    pub fn poison_analysis(&mut self)
        ensures
            final(self)@ == (HostView { analysis_poisoned: true, ..old(self)@ }),
            final(self).loader_spec() == old(self).loader_spec(),
    {
        self.analysis.poison();
    }

    /// Records that a holder of the lock of the crate numbers panicked.
    pub fn poison_master_crate_map(&mut self)
        ensures
            final(self)@ == (HostView { numbers_poisoned: true, ..old(self)@ }),
            final(self).loader_spec() == old(self).loader_spec(),
    {
        self.master_crate_map.poison();
    }

    /// Lowers a crate and records it.
    fn lower_one(&mut self, krate: &raw::Crate, base_dir: &FilePath) -> (r: AResult<()>)
        requires
            old(self)@.analysis is Some || old(self)@.analysis_poisoned,
        ensures
            (final(self)@, r) == old(self)@.lower_one(*krate, base_dir@),
            final(self).loader_spec() == old(self).loader_spec(),
    {
        let numbers = match self.master_crate_map.lock_mut() {
            Ok(numbers) => numbers,
            Err(e) => {
                return Err(e);
            },
        };
        let known = match self.analysis.lock() {
            Ok(analysis) => analysis.as_ref(),
            Err(_) => None,
        };
        let (id, data) = match lower_crate(krate, base_dir, numbers, known) {
            Ok(lowered) => lowered,
            Err(e) => {
                return Err(e);
            },
        };
        match self.analysis.lock_mut() {
            Ok(analysis) => {
                if let Some(a) = analysis {
                    a.update(id, data);
                }
                Ok(())
            },
            Err(e) => Err(e),
        }
    }

    /// Lowers crates and records them, one after the other up to the first that
    /// fails. Those before it stay recorded.
    pub fn lower(&mut self, krates: &Vec<raw::Crate>, base_dir: &FilePath) -> (r: AResult<()>)
        requires
            old(self)@.analysis is Some || old(self)@.analysis_poisoned,
        ensures
            (final(self)@, r) == old(self)@.lower_all(krates@, base_dir@),
            final(self).loader_spec() == old(self).loader_spec(),
    {
        let ghost before = self@;
        assert(krates@.skip(0) =~= krates@);
        for i in 0..krates.len()
            invariant
                before == old(self)@,
                self@.analysis is Some || self@.analysis_poisoned,
                before.lower_all(krates@, base_dir@) == self@.lower_all(
                    krates@.skip(i as int),
                    base_dir@,
                ),
                self.loader_spec() == old(self).loader_spec(),
        {
            let ghost rest = krates@.skip(i as int);
            assert(rest[0] == krates@[i as int]);
            assert(rest.skip(1) =~= krates@.skip(i + 1));
            match self.lower_one(&krates[i], base_dir) {
                Ok(_) => {},
                Err(e) => {
                    return Err(e);
                },
            }
        }
        Ok(())
    }

    /// Replaces all data by some crates. They are lowered on a fresh host, whose
    /// data is taken over once all of them are.
    pub fn finish_hard_reload(
        &mut self,
        fresh: AnalysisHost<L>,
        krates: &Vec<raw::Crate>,
        base_dir: &FilePath,
    ) -> (r: AResult<()>)
        ensures
            (final(self)@, r) == old(self)@.hard_reload(fresh@, krates@, base_dir@),
            final(self).loader_spec() == old(self).loader_spec(),
    {
        let mut fresh = fresh;
        let ghost given = fresh@;
        fresh.analysis = Guarded::new(Some(Analysis::new()));
        assert(fresh@ =~= given.emptied());
        let lowered = fresh.lower(krates, base_dir);
        proof {
            given.emptied().lemma_lower_all(krates@, base_dir@);
        }
        if lowered.is_ok() {
            if let Err(e) = self.master_crate_map.lock() {
                return Err(e);
            }
        }
        let AnalysisHost { analysis, master_crate_map, .. } = fresh;
        let filled = match lowered {
            Ok(_) => match master_crate_map.into_inner() {
                Ok(numbers) => match analysis.into_inner() {
                    Ok(analysis) => Ok((numbers, analysis)),
                    Err(e) => Err(e),
                },
                Err(e) => Err(e),
            },
            Err(e) => Err(e),
        };
        match filled {
            Err(e) => match self.analysis.set(None) {
                Ok(_) => Err(e),
                Err(poison) => Err(poison),
            },
            Ok((numbers, analysis)) => match self.master_crate_map.set(numbers) {
                Ok(_) => self.analysis.set(analysis),
                Err(poison) => Err(poison),
            },
        }
    }

    /// Adds the analysis of a crate that was not read from a file.
    pub fn import_analysis(
        &mut self,
        analysis: raw::Analysis,
        timestamp: u128,
        base_dir: &FilePath,
    ) -> (r: AResult<()>)
        requires
            old(self)@.analysis is Some || old(self)@.analysis_poisoned,
        ensures
            imported(old(self)@, final(self)@, analysis, timestamp, base_dir@, r),
            final(self).loader_spec() == old(self).loader_spec(),
    {
        let krate = raw::Crate::new(analysis, timestamp, FilePath::named("GOWNO"));
        self.lower_one(&krate, base_dir)
    }
}

/// Whether a host may look so after the analysis of a crate was added that was
/// not read from a file.
pub open spec fn imported(
    before: HostView,
    after: HostView,
    analysis: raw::Analysis,
    timestamp: u128,
    base_dir: PathView,
    r: AResult<()>,
) -> bool {
    exists|krate: raw::Crate|
        {
            &&& krate.analysis == analysis
            &&& krate.timestamp == timestamp
            &&& krate.path@ == (PathView { text: "GOWNO"@ })
            &&& (after, r) == #[trigger] before.lower_one(krate, base_dir)
        }
}

/// Whether a host may look so after all of its data was read again, once its
/// loader had been turned to the project: everything is read, and what was read
/// replaces the data.
pub open spec fn hard_reloaded<L, F>(
    before: AnalysisHost<L>,
    after: AnalysisHost<L>,
    base_dir: &FilePath,
    blacklist: &[&str],
    read: F,
    r: AResult<()>,
) -> bool where
    L: AnalysisLoader,
    F: Fn(&L, &Vec<(FilePath, u128)>, &[&str]) -> Vec<raw::Crate>,
 {
    exists|none: Vec<(FilePath, u128)>, krates: Vec<raw::Crate>, fresh: AnalysisHost<L>|
        {
            &&& none@.len() == 0
            &&& #[trigger] call_ensures(read, (&after.loader_spec(), &none, blacklist), krates)
            &&& #[trigger] call_ensures(L::fresh_host, (&after.loader_spec(),), fresh)
            &&& (after@, r) == before@.hard_reload(fresh@, krates@, base_dir@)
        }
}

/// Whether a host may look so after what is newer than its data was read and
/// recorded.
pub open spec fn updated<L, F>(
    before: AnalysisHost<L>,
    after: AnalysisHost<L>,
    base_dir: &FilePath,
    blacklist: &[&str],
    read: F,
    r: AResult<()>,
) -> bool where
    L: AnalysisLoader,
    F: Fn(&L, &Vec<(FilePath, u128)>, &[&str]) -> Vec<raw::Crate>,
 {
    &&& after.loader_spec() == before.loader_spec()
    &&& exists|timestamps: Vec<(FilePath, u128)>, krates: Vec<raw::Crate>|
        {
            &&& timestamps.deep_view() == before@.analysis->0.timestamps()
            &&& #[trigger] call_ensures(
                read,
                (&before.loader_spec(), &timestamps, blacklist),
                krates,
            )
            &&& (after@, r) == before@.lower_all(krates@, base_dir@)
        }
}

impl<L: AnalysisLoader> AnalysisHost<L> {
    /// Reads all data of a project again, but for crates on the blacklist.
    ///
    /// `read` reads what lies in the directories of a loader: the crates whose
    /// files are newer than the times given for them, without those on the
    /// blacklist.
    pub fn hard_reload_with_blacklist<F>(
        &mut self,
        path_prefix: &FilePath,
        base_dir: &FilePath,
        blacklist: &[&str],
        read: F,
    ) -> (r: AResult<()>) where
        F: Fn(&L, &Vec<(FilePath, u128)>, &[&str]) -> Vec<raw::Crate>,

        requires
            forall|loader: &L, timestamps: &Vec<(FilePath, u128)>| #[trigger]
                call_requires(read, (loader, timestamps, blacklist)),
        ensures
            exists|loader: &mut L|
                {
                    &&& *loader == old(self).loader_spec()
                    &&& *final(loader) == final(self).loader_spec()
                    &&& #[trigger] call_ensures(L::set_path_prefix, (loader, path_prefix), ())
                },
            hard_reloaded(*old(self), *final(self), base_dir, blacklist, read, r),
    {
        self.loader.set_path_prefix(path_prefix);
        let none: Vec<(FilePath, u128)> = Vec::new();
        let krates = read(&self.loader, &none, blacklist);
        let fresh = self.loader.fresh_host();
        self.finish_hard_reload(fresh, &krates, base_dir)
    }

    /// Reads all data of a project again.
    pub fn hard_reload<F>(
        &mut self,
        path_prefix: &FilePath,
        base_dir: &FilePath,
        read: F,
    ) -> (r: AResult<()>) where
        F: Fn(&L, &Vec<(FilePath, u128)>, &[&str]) -> Vec<raw::Crate>,

        requires
            forall|loader: &L, timestamps: &Vec<(FilePath, u128)>, blacklist: &[&str]| #[trigger]
                call_requires(read, (loader, timestamps, blacklist)),
        ensures
            exists|loader: &mut L|
                {
                    &&& *loader == old(self).loader_spec()
                    &&& *final(loader) == final(self).loader_spec()
                    &&& #[trigger] call_ensures(L::set_path_prefix, (loader, path_prefix), ())
                },
            exists|none: &[&str]|
                none@.len() == 0 && #[trigger] hard_reloaded(
                    *old(self),
                    *final(self),
                    base_dir,
                    none,
                    read,
                    r,
                ),
    {
        let none: [&str; 0] = [];
        self.hard_reload_with_blacklist(path_prefix, base_dir, &none, read)
    }

    /// Brings the data of a project up to date, but for crates on the blacklist.
    /// All of it is read again where nothing is loaded or the loader asks for it,
    /// else only what is newer.
    pub fn reload_with_blacklist<F>(
        &mut self,
        path_prefix: &FilePath,
        base_dir: &FilePath,
        blacklist: &[&str],
        read: F,
    ) -> (r: AResult<()>) where
        F: Fn(&L, &Vec<(FilePath, u128)>, &[&str]) -> Vec<raw::Crate>,

        requires
            forall|loader: &L, timestamps: &Vec<(FilePath, u128)>| #[trigger]
                call_requires(read, (loader, timestamps, blacklist)),
        ensures
            old(self)@.analysis_poisoned ==> r == Err::<(), AError>(AError::MutexPoison)
                && *final(self) == *old(self),
            !old(self)@.analysis_poisoned && old(self)@.analysis is None ==> {
                &&& exists|loader: &mut L|
                    {
                        &&& *loader == old(self).loader_spec()
                        &&& *final(loader) == final(self).loader_spec()
                        &&& #[trigger] call_ensures(L::set_path_prefix, (loader, path_prefix), ())
                    }
                &&& hard_reloaded(*old(self), *final(self), base_dir, blacklist, read, r)
            },
            !old(self)@.analysis_poisoned && old(self)@.analysis is Some ==> {
                ||| {
                    &&& call_ensures(
                        L::needs_hard_reload,
                        (&old(self).loader_spec(), path_prefix),
                        true,
                    )
                    &&& exists|loader: &mut L|
                        {
                            &&& *loader == old(self).loader_spec()
                            &&& *final(loader) == final(self).loader_spec()
                            &&& #[trigger] call_ensures(L::set_path_prefix, (loader, path_prefix), ())
                        }
                    &&& hard_reloaded(*old(self), *final(self), base_dir, blacklist, read, r)
                }
                ||| {
                    &&& call_ensures(
                        L::needs_hard_reload,
                        (&old(self).loader_spec(), path_prefix),
                        false,
                    )
                    &&& updated(*old(self), *final(self), base_dir, blacklist, read, r)
                }
            },
    {
        let timestamps = match self.analysis.lock() {
            Err(e) => {
                return Err(e);
            },
            Ok(None) => None,
            Ok(Some(a)) => Some(a.timestamps()),
        };
        match timestamps {
            None => self.hard_reload_with_blacklist(path_prefix, base_dir, blacklist, read),
            Some(timestamps) => {
                if self.loader.needs_hard_reload(path_prefix) {
                    return self.hard_reload_with_blacklist(path_prefix, base_dir, blacklist, read);
                }
                let krates = read(&self.loader, &timestamps, blacklist);
                self.lower(&krates, base_dir)
            },
        }
    }

    /// Brings the data of a project up to date.
    pub fn reload<F>(
        &mut self,
        path_prefix: &FilePath,
        base_dir: &FilePath,
        read: F,
    ) -> (r: AResult<()>) where
        F: Fn(&L, &Vec<(FilePath, u128)>, &[&str]) -> Vec<raw::Crate>,

        requires
            forall|loader: &L, timestamps: &Vec<(FilePath, u128)>, blacklist: &[&str]| #[trigger]
                call_requires(read, (loader, timestamps, blacklist)),
        ensures
            old(self)@.analysis_poisoned ==> r == Err::<(), AError>(AError::MutexPoison)
                && *final(self) == *old(self),
            !old(self)@.analysis_poisoned && old(self)@.analysis is None ==> {
                &&& exists|loader: &mut L|
                    {
                        &&& *loader == old(self).loader_spec()
                        &&& *final(loader) == final(self).loader_spec()
                        &&& #[trigger] call_ensures(L::set_path_prefix, (loader, path_prefix), ())
                    }
                &&& exists|none: &[&str]|
                    none@.len() == 0 && #[trigger] hard_reloaded(
                        *old(self),
                        *final(self),
                        base_dir,
                        none,
                        read,
                        r,
                    )
            },
            !old(self)@.analysis_poisoned && old(self)@.analysis is Some ==> {
                ||| {
                    &&& call_ensures(
                        L::needs_hard_reload,
                        (&old(self).loader_spec(), path_prefix),
                        true,
                    )
                    &&& exists|loader: &mut L|
                        {
                            &&& *loader == old(self).loader_spec()
                            &&& *final(loader) == final(self).loader_spec()
                            &&& #[trigger] call_ensures(L::set_path_prefix, (loader, path_prefix), ())
                        }
                    &&& exists|none: &[&str]|
                        none@.len() == 0 && #[trigger] hard_reloaded(
                            *old(self),
                            *final(self),
                            base_dir,
                            none,
                            read,
                            r,
                        )
                }
                ||| {
                    &&& call_ensures(
                        L::needs_hard_reload,
                        (&old(self).loader_spec(), path_prefix),
                        false,
                    )
                    &&& exists|none: &[&str]|
                        none@.len() == 0 && #[trigger] updated(
                            *old(self),
                            *final(self),
                            base_dir,
                            none,
                            read,
                            r,
                        )
                }
            },
    {
        let none: [&str; 0] = [];
        self.reload_with_blacklist(path_prefix, base_dir, &none, read)
    }

    /// Brings the data of a project up to date, as [`Self::reload_with_blacklist`]
    /// does, and then adds the analysis of a crate that was not read from a file.
    /// Where the reload fails, its error is returned and nothing is added. Only
    /// where it can succeed does the analysis have to say which crate it is of.
    pub fn reload_from_analysis<F>(
        &mut self,
        analysis: raw::Analysis,
        path_prefix: &FilePath,
        base_dir: &FilePath,
        blacklist: &[&str],
        read: F,
    ) -> (r: AResult<()>) where
        F: Fn(&L, &Vec<(FilePath, u128)>, &[&str]) -> Vec<raw::Crate>,

        requires
            analysis.prelude is Some || old(self)@.analysis_poisoned || {
                &&& old(self)@.analysis is None || call_ensures(
                    L::needs_hard_reload,
                    (&old(self).loader_spec(), path_prefix),
                    true,
                ) ==> forall|loader: &mut L, reloaded: AnalysisHost<L>, first: AResult<()>|
                    {
                        &&& *loader == old(self).loader_spec()
                        &&& *final(loader) == reloaded.loader_spec()
                        &&& #[trigger] call_ensures(L::set_path_prefix, (loader, path_prefix), ())
                        &&& #[trigger] hard_reloaded(
                            *old(self),
                            reloaded,
                            base_dir,
                            blacklist,
                            read,
                            first,
                        )
                    } ==> first is Err
                &&& old(self)@.analysis is Some && call_ensures(
                    L::needs_hard_reload,
                    (&old(self).loader_spec(), path_prefix),
                    false,
                ) ==> forall|reloaded: AnalysisHost<L>, first: AResult<()>| #[trigger]
                    updated(*old(self), reloaded, base_dir, blacklist, read, first) ==> first is Err
            },
            forall|loader: &L, timestamps: &Vec<(FilePath, u128)>| #[trigger]
                call_requires(read, (loader, timestamps, blacklist)),
        ensures
            old(self)@.analysis_poisoned ==> r == Err::<(), AError>(AError::MutexPoison)
                && *final(self) == *old(self),
            !old(self)@.analysis_poisoned && old(self)@.analysis is None ==> {
                &&& exists|loader: &mut L|
                    {
                        &&& *loader == old(self).loader_spec()
                        &&& *final(loader) == final(self).loader_spec()
                        &&& #[trigger] call_ensures(L::set_path_prefix, (loader, path_prefix), ())
                    }
                &&& exists|reloaded: AnalysisHost<L>, first: AResult<()>|
                    {
                        &&& reloaded.loader_spec() == final(self).loader_spec()
                        &&& hard_reloaded(*old(self), reloaded, base_dir, blacklist, read, first)
                        &&& #[trigger] then_imported(
                            reloaded@,
                            first,
                            final(self)@,
                            analysis,
                            base_dir@,
                            r,
                        )
                    }
            },
            !old(self)@.analysis_poisoned && old(self)@.analysis is Some ==> {
                ||| {
                    &&& call_ensures(
                        L::needs_hard_reload,
                        (&old(self).loader_spec(), path_prefix),
                        true,
                    )
                    &&& exists|loader: &mut L|
                        {
                            &&& *loader == old(self).loader_spec()
                            &&& *final(loader) == final(self).loader_spec()
                            &&& #[trigger] call_ensures(L::set_path_prefix, (loader, path_prefix), ())
                        }
                    &&& exists|reloaded: AnalysisHost<L>, first: AResult<()>|
                        {
                            &&& reloaded.loader_spec() == final(self).loader_spec()
                            &&& hard_reloaded(
                                *old(self),
                                reloaded,
                                base_dir,
                                blacklist,
                                read,
                                first,
                            )
                            &&& #[trigger] then_imported(
                                reloaded@,
                                first,
                                final(self)@,
                                analysis,
                                base_dir@,
                                r,
                            )
                        }
                }
                ||| {
                    &&& call_ensures(
                        L::needs_hard_reload,
                        (&old(self).loader_spec(), path_prefix),
                        false,
                    )
                    &&& exists|reloaded: AnalysisHost<L>, first: AResult<()>|
                        {
                            &&& reloaded.loader_spec() == final(self).loader_spec()
                            &&& updated(*old(self), reloaded, base_dir, blacklist, read, first)
                            &&& #[trigger] then_imported(
                                reloaded@,
                                first,
                                final(self)@,
                                analysis,
                                base_dir@,
                                r,
                            )
                        }
                }
            },
    {
        let first = self.reload_with_blacklist(path_prefix, base_dir, blacklist, read);
        let ghost reloaded = *self;
        match first {
            Err(e) => {
                assert(then_imported(
                    reloaded@,
                    first,
                    self@,
                    analysis,
                    base_dir@,
                    Err::<(), AError>(e),
                ));
                Err(e)
            },
            Ok(_) => {
                proof {
                    law_reload_loads_something(
                        *old(self),
                        reloaded,
                        base_dir,
                        blacklist,
                        read,
                        first,
                    );
                }
                assert(analysis.prelude is Some);
                let timestamp: u128 = now();
                let r = self.import_analysis(analysis, timestamp, base_dir);
                assert(imported(reloaded@, self@, analysis, timestamp, base_dir@, r));
                assert(then_imported(reloaded@, first, self@, analysis, base_dir@, r));
                r
            },
        }
    }
}

/// Whether a host may look so after a reload that succeeded was followed by
/// adding the analysis of a crate; one that failed is followed by nothing.
pub open spec fn then_imported(
    reloaded: HostView,
    first: AResult<()>,
    after: HostView,
    analysis: raw::Analysis,
    base_dir: PathView,
    r: AResult<()>,
) -> bool {
    match first {
        Ok(_) => exists|timestamp: u128| #[trigger]
            imported(reloaded, after, analysis, timestamp, base_dir, r),
        Err(e) => r == Err::<(), AError>(e) && after == reloaded,
    }
}

/// The time that the data of a crate gets that was not read from a file: that of
/// the machine's clock, in nanoseconds since the start of 1970. A clock that is set
/// before then gives zero.
fn now() -> (t: u128) {
    match since_epoch() {
        Some(t) => t,
        None => 0,
    }
}

/// `std::time::SystemTime::elapsed` of the start of 1970: how long ago that was by
/// the machine's clock, in nanoseconds, or `None` where the clock is set before it.
/// Nothing is claimed of the result, which rests on the clock alone.
#[verifier::external_body]
fn since_epoch() -> (t: Option<u128>) {
    match std::time::UNIX_EPOCH.elapsed() {
        Ok(since) => Some(since.as_nanos()),
        Err(_) => None,
    }
}

} // verus!
