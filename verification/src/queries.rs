//! The questions that a host answers about a project.
use vstd::prelude::*;

use crate::analysis::{answers_for, or_empty, Analysis, AnalysisView, SymbolResult};
use crate::basics::{outcome, AError, AResult, Id};
use crate::host::AnalysisHost;
use crate::loader::AnalysisLoader;
use crate::path::{FilePath, PathView};
use crate::per_crate::{copied_spans, Def};
use crate::span::{Span, SpanView};
use crate::urls::{doc_url_for, src_url_for};

verus! {

impl AnalysisView {
    /// The span of the definition at a span.
    pub open spec fn goto_def(self, span: SpanView) -> Option<SpanView> {
        match self.id_at(span) {
            Some(id) => match self.def(id) {
                Some(d) => Some(d.span),
                None => None,
            },
            None => None,
        }
    }

    /// The references to the definition at a span, behind its own span if that
    /// is asked for.
    pub open spec fn all_refs(self, span: SpanView, include_decl: bool) -> Option<Seq<SpanView>> {
        match self.id_at(span) {
            Some(id) => if include_decl {
                self.def_and_refs(id)
            } else {
                Some(or_empty(self.refs(id)))
            },
            None => None,
        }
    }

    /// The type at a span: the value of the definition there, else of the glob
    /// import.
    pub open spec fn type_at(self, span: SpanView) -> Option<Seq<char>> {
        match self.id_at(span) {
            Some(id) => match self.def(id) {
                Some(d) => Some(d.value),
                None => self.glob(span),
            },
            None => self.glob(span),
        }
    }

    /// The documentation of the definition at a span.
    pub open spec fn docs_at(self, span: SpanView) -> Option<Seq<char>> {
        match self.id_at(span) {
            Some(id) => match self.def(id) {
                Some(d) => Some(d.docs),
                None => None,
            },
            None => None,
        }
    }

    /// The URL of the documentation of the definition at a span.
    pub open spec fn doc_url_at(self, span: SpanView) -> Option<Seq<char>> {
        match self.id_at(span) {
            Some(id) => self.doc_url(id),
            None => None,
        }
    }

    /// The URL of the source of the definition at a span.
    pub open spec fn src_url_at(self, span: SpanView, path_prefix: Option<PathView>) -> Option<
        Seq<char>,
    > {
        match self.id_at(span) {
            Some(id) => self.src_url(id, path_prefix),
            None => None,
        }
    }
}

impl<L> AnalysisHost<L> {
    /// Whether a definition is known. It may be without there being a place to go
    /// to: [`Self::goto_def`] goes by spans, and no span need lead to it.
    pub fn has_def(&self, id: Id) -> (b: bool)
        requires
            self@.analysis is Some || self@.analysis_poisoned,
        ensures
            b == (!self@.analysis_poisoned && self@.analysis->0.def(id) is Some),
    {
        let r = self.with_analysis(
            |a: &Analysis| -> (o: Option<bool>)
                ensures
                    o == Some(a@.def(id) is Some)
                { Some(a.has_def(id)) },
        );
        match r {
            Ok(b) => b,
            Err(_) => false,
        }
    }

    /// The definition with an id.
    pub fn get_def(&self, id: Id) -> (r: AResult<Def>)
        ensures
            outcome(r) == self@.query(|a: AnalysisView| a.def(id)),
    {
        self.with_analysis(
            |a: &Analysis| -> (o: Option<Def>)
                ensures
                    o.deep_view() == a@.def(id)
                {
                    match a.def(id) {
                        Some(def) => Some(def.clone()),
                        None => None,
                    }
                },
        )
    }

    /// The span of the definition at a span.
    pub fn goto_def(&self, span: &Span) -> (r: AResult<Span>)
        ensures
            outcome(r) == self@.query(|a: AnalysisView| a.goto_def(span@)),
    {
        self.with_analysis(
            |a: &Analysis| -> (o: Option<Span>)
                ensures
                    o.deep_view() == a@.goto_def(span@)
                {
                    match a.id_at(span) {
                        Some(id) => match a.def(id) {
                            Some(def) => Some(def.span.clone()),
                            None => None,
                        },
                        None => None,
                    }
                },
        )
    }

    /// Calls a function on each child of a definition, with its id.
    pub fn for_each_child_def<F, T>(&self, id: Id, f: F) -> (r: AResult<Vec<T>>) where
        F: FnMut(Id, &Def) -> T,

        requires
            self@.known() matches Some(a) ==> forall|child: Id, def: &Def|
                a.children(id).contains((child, def@)) ==> #[trigger] call_requires(
                    f,
                    (child, def),
                ),
        ensures
            self@.analysis_poisoned ==> r == Err::<Vec<T>, AError>(AError::MutexPoison),
            !self@.analysis_poisoned && self@.analysis is None ==> r == Err::<Vec<T>, AError>(
                AError::Unclassified,
            ),
            !self@.analysis_poisoned && self@.analysis is Some ==> r is Ok && answers_for(
                f,
                self@.analysis->0.children(id),
                r->Ok_0@,
            ),
    {
        self.with_analysis(
            |a: &Analysis| -> (o: Option<Vec<T>>)
                requires
                    self@.known() == Some(a@),
                ensures
                    o matches Some(v) && answers_for(f, a@.children(id), v@)
                { Some(a.for_each_child(id, f)) },
        )
    }

    /// The ancestors of a definition, with their names, the outermost first.
    pub fn def_parents(&self, id: Id) -> (r: AResult<Vec<(Id, String)>>)
        requires
            self@.known() matches Some(a) ==> a.ancestry_ends(id),
        ensures
            outcome(r) == self@.query(|a: AnalysisView| Some(a.ancestors(id))),
    {
        self.with_analysis(
            |a: &Analysis| -> (o: Option<Vec<(Id, String)>>)
                requires
                    self@.known() == Some(a@),
                ensures
                    o.deep_view() == Some(a@.ancestors(id))
                { Some(a.ancestors(id)) },
        )
    }

    /// The name of each crate in the program and the id of the root module of
    /// that crate.
    pub fn def_roots(&self) -> (r: AResult<Vec<(Id, String)>>)
        ensures
            outcome(r) == self@.query(|a: AnalysisView| Some(a.roots())),
    {
        self.with_analysis(
            |a: &Analysis| -> (o: Option<Vec<(Id, String)>>)
                ensures
                    o.deep_view() == Some(a@.roots())
                { Some(a.roots()) },
        )
    }

    /// The id of the definition at a span.
    pub fn id(&self, span: &Span) -> (r: AResult<Id>)
        ensures
            outcome(r) == self@.query(|a: AnalysisView| a.id_at(span@)),
    {
        self.with_analysis(
            |a: &Analysis| -> (o: Option<Id>)
                ensures
                    o.deep_view() == a@.id_at(span@)
                { a.id_at(span) },
        )
    }

    /// Like [`Self::id`], but only where the definition is in the same crate as
    /// the span.
    pub fn crate_local_id(&self, span: &Span) -> (r: AResult<Id>)
        ensures
            outcome(r) == self@.query(|a: AnalysisView| a.local_id_at(span@)),
    {
        self.with_analysis(
            |a: &Analysis| -> (o: Option<Id>)
                ensures
                    o.deep_view() == a@.local_id_at(span@)
                { a.local_id_at(span) },
        )
    }

    /// The references to the definition at a span, behind its own span if that is
    /// asked for.
    pub fn find_all_refs(&self, span: &Span, include_decl: bool) -> (r: AResult<Vec<Span>>)
        ensures
            outcome(r) == self@.query(|a: AnalysisView| a.all_refs(span@, include_decl)),
    {
        self.with_analysis(
            |a: &Analysis| -> (o: Option<Vec<Span>>)
                ensures
                    o.deep_view() == a@.all_refs(span@, include_decl)
                {
                    match a.id_at(span) {
                        Some(id) => if include_decl {
                            a.def_and_refs(id)
                        } else {
                            match a.refs(id) {
                                Some(refs) => Some(copied_spans(refs)),
                                None => {
                                    let none: Vec<Span> = Vec::new();
                                    assert(none.deep_view() =~= Seq::empty());
                                    Some(none)
                                },
                            }
                        },
                        None => None,
                    }
                },
        )
    }

    /// The type at a span.
    pub fn show_type(&self, span: &Span) -> (r: AResult<String>)
        ensures
            outcome(r) == self@.query(|a: AnalysisView| a.type_at(span@)),
    {
        self.with_analysis(
            |a: &Analysis| -> (o: Option<String>)
                ensures
                    o.deep_view() == a@.type_at(span@)
                {
                    let value = match a.id_at(span) {
                        Some(id) => match a.def(id) {
                            Some(def) => Some(&def.value),
                            None => a.glob(span),
                        },
                        None => a.glob(span),
                    };
                    match value {
                        Some(value) => Some(value.clone()),
                        None => None,
                    }
                },
        )
    }

    /// The documentation of the definition at a span.
    pub fn docs(&self, span: &Span) -> (r: AResult<String>)
        ensures
            outcome(r) == self@.query(|a: AnalysisView| a.docs_at(span@)),
    {
        self.with_analysis(
            |a: &Analysis| -> (o: Option<String>)
                ensures
                    o.deep_view() == a@.docs_at(span@)
                {
                    match a.id_at(span) {
                        Some(id) => match a.def(id) {
                            Some(def) => Some(def.docs.clone()),
                            None => None,
                        },
                        None => None,
                    }
                },
        )
    }

    /// The definitions with a name.
    pub fn name_defs(&self, name: &str) -> (r: AResult<Vec<Def>>)
        ensures
            outcome(r) == self@.query(|a: AnalysisView| Some(a.defs_named(name@))),
    {
        self.with_analysis(
            |a: &Analysis| -> (o: Option<Vec<Def>>)
                ensures
                    o.deep_view() == Some(a@.defs_named(name@))
                { Some(a.defs_named(name)) },
        )
    }

    /// The spans of the definitions with a name and of what refers to them.
    pub fn search(&self, name: &str) -> (r: AResult<Vec<Span>>)
        ensures
            outcome(r) == self@.query(|a: AnalysisView| Some(a.spans_of(a.ids_named(name@)))),
    {
        self.with_analysis(
            |a: &Analysis| -> (o: Option<Vec<Span>>)
                ensures
                    o.deep_view() == Some(a@.spans_of(a@.ids_named(name@)))
                { Some(a.spans_named(name)) },
        )
    }

    /// The span of a definition and then those of the references to it.
    pub fn find_all_refs_by_id(&self, id: Id) -> (r: AResult<Vec<Span>>)
        ensures
            outcome(r) == self@.query(|a: AnalysisView| a.def_and_refs(id)),
    {
        self.with_analysis(
            |a: &Analysis| -> (o: Option<Vec<Span>>)
                ensures
                    o.deep_view() == a@.def_and_refs(id)
                { a.def_and_refs(id) },
        )
    }

    /// The spans of the implementations that a definition takes part in.
    pub fn find_impls(&self, id: Id) -> (r: AResult<Vec<Span>>)
        ensures
            outcome(r) == self@.query(|a: AnalysisView| Some(a.impls(id))),
    {
        self.with_analysis(
            |a: &Analysis| -> (o: Option<Vec<Span>>)
                ensures
                    o.deep_view() == Some(a@.impls(id))
                { Some(a.impls(id)) },
        )
    }

    /// The ids of the definitions with a name.
    pub fn search_for_id(&self, name: &str) -> (r: AResult<Vec<Id>>)
        ensures
            outcome(r) == self@.query(|a: AnalysisView| Some(a.ids_named(name@))),
    {
        self.with_analysis(
            |a: &Analysis| -> (o: Option<Vec<Id>>)
                ensures
                    o.deep_view() == Some(a@.ids_named(name@))
                { Some(a.ids_named(name)) },
        )
    }

    /// The outline of a file.
    pub fn symbols(&self, file_name: &FilePath) -> (r: AResult<Vec<SymbolResult>>)
        ensures
            outcome(r) == self@.query(|a: AnalysisView| a.symbols(file_name@)),
    {
        self.with_analysis(
            |a: &Analysis| -> (o: Option<Vec<SymbolResult>>)
                ensures
                    o.deep_view() == a@.symbols(file_name@)
                { a.symbols(file_name) },
        )
    }

    /// The URL of the documentation of the definition at a span, for example
    /// `https://doc.rust-lang.org/nightly/std/string/String.t.html`.
    pub fn doc_url(&self, span: &Span) -> (r: AResult<String>)
        requires
            self@.known() matches Some(a) ==> (a.id_at(span@) matches Some(id) ==> a.doc_url_ends(
                id,
            )),
        ensures
            outcome(r) == self@.query(|a: AnalysisView| a.doc_url_at(span@)),
    {
        self.with_analysis(
            |a: &Analysis| -> (o: Option<String>)
                requires
                    self@.known() == Some(a@),
                ensures
                    o.deep_view() == a@.doc_url_at(span@)
                {
                    match a.id_at(span) {
                        Some(id) => doc_url_for(a, id),
                        None => None,
                    }
                },
        )
    }

    /// The URL of the source of the definition at a span, where the project is
    /// under a prefix.
    pub fn src_url_under(&self, span: &Span, path_prefix: Option<&FilePath>) -> (r: AResult<String>)
        ensures
            outcome(r) == self@.query(
                |a: AnalysisView| a.src_url_at(span@, path_prefix.deep_view()),
            ),
    {
        self.with_analysis(
            |a: &Analysis| -> (o: Option<String>)
                ensures
                    o.deep_view() == a@.src_url_at(span@, path_prefix.deep_view())
                {
                    match a.id_at(span) {
                        Some(id) => src_url_for(a, id, path_prefix),
                        None => None,
                    }
                },
        )
    }
}

impl<L: AnalysisLoader> AnalysisHost<L> {
    /// The URL of the source of the definition at a span, for example
    /// `https://github.com/rust-lang/rust/blob/master/src/liballoc/string.rs#L261-L263`.
    /// The loader says what the project is under.
    pub fn src_url(&self, span: &Span) -> (r: AResult<String>)
        ensures
            exists|path_prefix: Option<FilePath>|
                {
                    &&& #[trigger] call_ensures(
                        L::abs_path_prefix,
                        (&self.loader_spec(),),
                        path_prefix,
                    )
                    &&& outcome(r) == self@.query(
                        |a: AnalysisView| a.src_url_at(span@, path_prefix.deep_view()),
                    )
                },
    {
        let path_prefix = self.loader().abs_path_prefix();
        self.src_url_under(span, path_prefix.as_ref())
    }
}

} // verus!
