//! The analysis of a project: its crates, and the questions that they answer
//! together. Crates are asked in the order in which they were first loaded.
use vstd::prelude::*;

use crate::basics::{CrateId, CrateIdView, Id};
use crate::path::{FilePath, PathView};
use crate::per_crate::{append_spans, copied_ids, lookup, CrateView, Def, DefView, PerCrateAnalysis};
use crate::raw::DefKind;
use crate::span::{Span, SpanView};
use crate::text::copied;

verus! {

/// The first answer that a crate gives.
pub open spec fn first<T>(
    crates: Seq<(CrateIdView, CrateView)>,
    ask: spec_fn(CrateView) -> Option<T>,
) -> Option<T>
    decreases crates.len(),
{
    if crates.len() == 0 {
        None
    } else {
        match ask(crates[0].1) {
            Some(answer) => Some(answer),
            None => first(crates.skip(1), ask),
        }
    }
}

/// The answers of all crates, one after the other.
pub open spec fn all<T>(
    crates: Seq<(CrateIdView, CrateView)>,
    ask: spec_fn(CrateView) -> Seq<T>,
) -> Seq<T>
    decreases crates.len(),
{
    if crates.len() == 0 {
        Seq::empty()
    } else {
        all(crates.drop_last(), ask) + ask(crates.last().1)
    }
}

/// The elements of a list that is there, or none.
pub open spec fn or_empty<T>(list: Option<Seq<T>>) -> Seq<T> {
    match list {
        Some(s) => s,
        None => Seq::empty(),
    }
}

/// The first answer comes from the first crate that gives one.
pub proof fn lemma_first_at<T>(
    crates: Seq<(CrateIdView, CrateView)>,
    ask: spec_fn(CrateView) -> Option<T>,
    i: int,
)
    requires
        0 <= i <= crates.len(),
        forall|j: int| 0 <= j < i ==> ask((#[trigger] crates[j]).1) is None,
    ensures
        i == crates.len() ==> first(crates, ask) is None,
        i < crates.len() && ask(crates[i].1) is Some ==> first(crates, ask) == ask(crates[i].1),
    decreases i,
{
    if i > 0 {
        let rest = crates.skip(1);
        assert(ask(crates[0].1) is None);
        assert forall|j: int| 0 <= j < i - 1 implies ask((#[trigger] rest[j]).1) is None by {
            assert(rest[j] == crates[j + 1]);
        }
        lemma_first_at(rest, ask, i - 1);
        if i < crates.len() {
            assert(rest[i - 1] == crates[i]);
        }
    }
}

/// Some crate gives the first answer, and none before it gives any.
pub proof fn lemma_first_from<T>(
    crates: Seq<(CrateIdView, CrateView)>,
    ask: spec_fn(CrateView) -> Option<T>,
) -> (i: int)
    ensures
        0 <= i <= crates.len(),
        forall|j: int| 0 <= j < i ==> ask((#[trigger] crates[j]).1) is None,
        first(crates, ask) is None <==> i == crates.len(),
        i < crates.len() ==> ask(crates[i].1) is Some && first(crates, ask) == ask(crates[i].1),
    decreases crates.len(),
{
    if crates.len() == 0 {
        0
    } else if ask(crates[0].1) is Some {
        0
    } else {
        let rest = crates.skip(1);
        let k = lemma_first_from(rest, ask);
        assert forall|j: int| 0 <= j < k + 1 implies ask((#[trigger] crates[j]).1) is None by {
            if j > 0 {
                assert(rest[j - 1] == crates[j]);
            }
        }
        if k < rest.len() {
            assert(rest[k] == crates[k + 1]);
        }
        k + 1
    }
}

/// One more crate adds its answer at the end.
pub proof fn lemma_all_next<T>(
    crates: Seq<(CrateIdView, CrateView)>,
    ask: spec_fn(CrateView) -> Seq<T>,
    i: int,
)
    requires
        0 <= i < crates.len(),
    ensures
        all(crates.take(i + 1), ask) == all(crates.take(i), ask) + ask(crates[i].1),
{
    assert(crates.take(i + 1).drop_last() =~= crates.take(i));
}

/// A definition in the outline of a file.
pub ghost struct SymbolView {
    pub id: Id,
    pub name: Seq<char>,
    pub kind: DefKind,
    pub span: SpanView,
}

/// What is known of a project.
#[verifier::ext_equal]
pub ghost struct AnalysisView {
    pub crates: Seq<(CrateIdView, CrateView)>,
    pub doc_url_base: Seq<char>,
    pub src_url_base: Seq<char>,
}

impl AnalysisView {
    /// A project without crates.
    pub open spec fn blank() -> AnalysisView {
        AnalysisView {
            crates: Seq::empty(),
            doc_url_base: "https://doc.rust-lang.org/nightly"@,
            src_url_base: "https://github.com/rust-lang/rust/blob/master/src"@,
        }
    }

    /// The place of a crate, or the number of crates.
    pub open spec fn place(self, id: CrateIdView) -> int {
        place_in(self.crates, id)
    }

    /// The project with a crate, in the place of its earlier data if there is
    /// any, under the id that is there, else behind the others.
    pub open spec fn update(self, id: CrateIdView, data: CrateView) -> AnalysisView {
        let i = self.place(id);
        AnalysisView {
            crates: if i < self.crates.len() {
                self.crates.update(i, (self.crates[i].0, data))
            } else {
                self.crates.push((id, data))
            },
            ..self
        }
    }

    /// The file and the time of the data of each crate.
    pub open spec fn timestamps(self) -> Seq<(PathView, u128)> {
        self.crates.map_values(|c: (CrateIdView, CrateView)| (c.0.path, c.1.timestamp))
    }

    pub open spec fn def(self, id: Id) -> Option<DefView> {
        first(self.crates, |c: CrateView| lookup(c.defs, id))
    }

    pub open spec fn id_at(self, span: SpanView) -> Option<Id> {
        first(self.crates, |c: CrateView| lookup(c.def_id_for_span, span.key()))
    }

    pub open spec fn local_id_at(self, span: SpanView) -> Option<Id> {
        first(self.crates, |c: CrateView| c.local_id_at(span))
    }

    pub open spec fn refs(self, id: Id) -> Option<Seq<SpanView>> {
        first(self.crates, |c: CrateView| lookup(c.ref_spans, id))
    }

    pub open spec fn glob(self, span: SpanView) -> Option<Seq<char>> {
        first(self.crates, |c: CrateView| lookup(c.globs, span.key()))
    }

    pub open spec fn file_defs(self, file: PathView) -> Option<Seq<Id>> {
        first(self.crates, |c: CrateView| lookup(c.defs_per_file, file.key()))
    }

    /// The children of a definition: of those that the first crate with any
    /// lists, the ones that it defines.
    pub open spec fn children(self, id: Id) -> Seq<(Id, DefView)> {
        or_empty(
            first(
                self.crates,
                |c: CrateView|
                    match lookup(c.children, id) {
                        Some(ids) => Some(c.defined(ids)),
                        None => None,
                    },
            ),
        )
    }

    pub open spec fn ids_named(self, name: Seq<char>) -> Seq<Id> {
        all(self.crates, |c: CrateView| or_empty(lookup(c.def_names, name)))
    }

    /// The definitions with a name, each as the crate has it that lists it.
    pub open spec fn defs_named(self, name: Seq<char>) -> Seq<DefView> {
        all(
            self.crates,
            |c: CrateView|
                c.defined(or_empty(lookup(c.def_names, name))).map_values(|d: (Id, DefView)| d.1),
        )
    }

    /// The root module and the name of each crate that has a root module.
    pub open spec fn roots(self) -> Seq<(Id, Seq<char>)> {
        all(
            self.crates,
            |c: CrateView|
                match c.root_id {
                    Some(id) => seq![(id, c.name)],
                    None => Seq::empty(),
                },
        )
    }

    pub open spec fn impls(self, id: Id) -> Seq<SpanView> {
        all(self.crates, |c: CrateView| or_empty(lookup(c.impls, id)))
    }

    /// The span of a definition, if there is one, as a list.
    pub open spec fn def_span(self, id: Id) -> Seq<SpanView> {
        match self.def(id) {
            Some(d) => seq![d.span],
            None => Seq::empty(),
        }
    }

    /// The span of a definition and then those of the references to it. `None`
    /// where there is neither a definition nor a list of references.
    pub open spec fn def_and_refs(self, id: Id) -> Option<Seq<SpanView>> {
        match self.refs(id) {
            Some(refs) => Some(self.def_span(id) + refs),
            None => match self.def(id) {
                Some(d) => Some(seq![d.span]),
                None => None,
            },
        }
    }

    /// The spans of the definitions with some ids and of what refers to them.
    pub open spec fn spans_of(self, ids: Seq<Id>) -> Seq<SpanView>
        decreases ids.len(),
    {
        if ids.len() == 0 {
            Seq::empty()
        } else {
            self.spans_of(ids.drop_last()) + or_empty(self.def_and_refs(ids.last()))
        }
    }

    /// The outline of a file.
    pub open spec fn symbols(self, file: PathView) -> Option<Seq<SymbolView>> {
        match self.file_defs(file) {
            Some(ids) => Some(ids.map_values(|id: Id| self.symbol(id))),
            None => None,
        }
    }

    /// A definition as it stands in an outline.
    pub open spec fn symbol(self, id: Id) -> SymbolView {
        let d = self.def(id)->0;
        SymbolView { id, name: d.name, kind: d.kind, span: d.span }
    }

    /// The parent of a definition and its name, where the parent is defined.
    pub open spec fn parent(self, id: Id) -> Option<(Id, Seq<char>)> {
        first(
            self.crates,
            |c: CrateView|
                match lookup(c.defs, id) {
                    Some(d) => self.named_parent(d),
                    None => None,
                },
        )
    }

    /// The parent that a definition names, and its name, where it is defined.
    pub open spec fn named_parent(self, d: DefView) -> Option<(Id, Seq<char>)> {
        match d.parent {
            Some(p) => match self.def(p) {
                Some(pd) => Some((p, pd.name)),
                None => None,
            },
            None => None,
        }
    }

    /// Whether a definition has at most `n` ancestors.
    pub open spec fn ancestry_within(self, id: Id, n: nat) -> bool
        decreases n,
    {
        match self.parent(id) {
            Some(p) => n > 0 && self.ancestry_within(p.0, (n - 1) as nat),
            None => true,
        }
    }

    /// Whether the way from a definition to its parent, the parent of that and
    /// so on comes to an end.
    pub open spec fn ancestry_ends(self, id: Id) -> bool {
        exists|n: nat| self.ancestry_within(id, n)
    }

    /// At most `n` ancestors of a definition, the outermost first.
    pub open spec fn ancestors_within(self, id: Id, n: nat) -> Seq<(Id, Seq<char>)>
        decreases n,
    {
        match self.parent(id) {
            Some(p) => if n > 0 {
                self.ancestors_within(p.0, (n - 1) as nat).push(p)
            } else {
                Seq::empty()
            },
            None => Seq::empty(),
        }
    }

    /// The ancestors of a definition, the outermost first.
    pub open spec fn ancestors(self, id: Id) -> Seq<(Id, Seq<char>)> {
        self.ancestors_within(id, choose|n: nat| self.ancestry_within(id, n))
    }

    /// However large a bound, it is the same ancestors that it gives.
    pub proof fn lemma_ancestors_bound(self, id: Id, n: nat, m: nat)
        requires
            self.ancestry_within(id, n),
            self.ancestry_within(id, m),
        ensures
            self.ancestors_within(id, n) == self.ancestors_within(id, m),
        decreases n,
    {
        if let Some(p) = self.parent(id) {
            self.lemma_ancestors_bound(p.0, (n - 1) as nat, (m - 1) as nat);
        }
    }

    /// A definition that some crate has is found.
    pub proof fn lemma_def_found(self, id: Id, i: int)
        requires
            0 <= i < self.crates.len(),
            self.crates[i].1.defs.contains_key(id),
        ensures
            self.def(id) is Some,
    {
        lemma_first_from(self.crates, |c: CrateView| lookup(c.defs, id));
        assert(lookup(self.crates[i].1.defs, id) is Some);
    }
}

/// The place of the first crate with an id, or the number of crates.
pub open spec fn place_in(crates: Seq<(CrateIdView, CrateView)>, id: CrateIdView) -> int
    decreases crates.len(),
{
    if crates.len() == 0 || crates[0].0.same(id) {
        0
    } else {
        1 + place_in(crates.skip(1), id)
    }
}

/// What [`place_in`] finds.
pub proof fn lemma_place_at(crates: Seq<(CrateIdView, CrateView)>, id: CrateIdView, i: int)
    requires
        0 <= i <= crates.len(),
        forall|j: int| 0 <= j < i ==> !(#[trigger] crates[j]).0.same(id),
        i < crates.len() ==> crates[i].0.same(id),
    ensures
        place_in(crates, id) == i,
    decreases i,
{
    if i > 0 {
        let rest = crates.skip(1);
        assert(!crates[0].0.same(id));
        assert forall|j: int| 0 <= j < i - 1 implies !(#[trigger] rest[j]).0.same(id) by {
            assert(rest[j] == crates[j + 1]);
        }
        if i < crates.len() {
            assert(rest[i - 1] == crates[i]);
        }
        lemma_place_at(rest, id, i - 1);
    }
}

/// A definition in the outline of a file.
#[derive(PartialEq, Eq, Debug)]
pub struct SymbolResult {
    pub id: Id,
    pub name: String,
    pub kind: DefKind,
    pub span: Span,
}

impl View for SymbolResult {
    type V = SymbolView;

    open spec fn view(&self) -> SymbolView {
        SymbolView { id: self.id, name: self.name@, kind: self.kind, span: self.span@ }
    }
}

impl DeepView for SymbolResult {
    type V = SymbolView;

    open spec fn deep_view(&self) -> SymbolView {
        self@
    }
}

impl Clone for SymbolResult {
    fn clone(&self) -> (s: SymbolResult)
        ensures
            s@ == self@,
    {
        SymbolResult {
            id: self.id,
            name: self.name.clone(),
            kind: self.kind,
            span: self.span.clone(),
        }
    }
}

impl SymbolResult {
    pub fn new(id: Id, def: &Def) -> (s: SymbolResult)
        ensures
            s@ == (SymbolView { id, name: def@.name, kind: def@.kind, span: def@.span }),
    {
        SymbolResult { id, name: def.name.clone(), kind: def.kind, span: def.span.clone() }
    }
}

/// Whether a function may answer so on a definition and its id.
pub open spec fn answers<F, T>(f: F, of: (Id, DefView), answer: T) -> bool where
    F: FnMut(Id, &Def) -> T,
 {
    exists|def: Def| def@ == of.1 && #[trigger] call_ensures(f, (of.0, &def), answer)
}

/// Whether a function may answer so on some definitions, one after the other.
pub open spec fn answers_for<F, T>(f: F, of: Seq<(Id, DefView)>, r: Seq<T>) -> bool where
    F: FnMut(Id, &Def) -> T,
 {
    &&& r.len() == of.len()
    &&& forall|i: int| 0 <= i < r.len() ==> answers(f, of[i], #[trigger] r[i])
}

/// The analysis of a project.
pub struct Analysis {
    per_crate: Vec<(CrateId, PerCrateAnalysis)>,
    doc_url_base: String,
    src_url_base: String,
}

impl View for Analysis {
    type V = AnalysisView;

    closed spec fn view(&self) -> AnalysisView {
        AnalysisView {
            crates: self.per_crate@.map_values(|c: (CrateId, PerCrateAnalysis)| (c.0@, c.1@)),
            doc_url_base: self.doc_url_base@,
            src_url_base: self.src_url_base@,
        }
    }
}

impl DeepView for Analysis {
    type V = AnalysisView;

    open spec fn deep_view(&self) -> AnalysisView {
        self@
    }
}

impl Analysis {
    pub fn new() -> (a: Analysis)
        ensures
            a@ == AnalysisView::blank(),
    {
        let a = Analysis {
            per_crate: Vec::new(),
            doc_url_base: copied("https://doc.rust-lang.org/nightly"),
            src_url_base: copied("https://github.com/rust-lang/rust/blob/master/src"),
        };
        assert(a@ =~= AnalysisView::blank());
        a
    }

    /// Puts a crate in the place of its earlier data, or behind the others.
    pub fn update(&mut self, id: CrateId, data: PerCrateAnalysis)
        ensures
            final(self)@ == old(self)@.update(id@, data@),
    {
        let ghost before = self@;
        let mut i: usize = 0;
        while i < self.per_crate.len() && !self.per_crate[i].0.same(&id)
            invariant
                self@ == before,
                i <= self.per_crate@.len(),
                forall|j: int| 0 <= j < i ==> !(#[trigger] before.crates[j]).0.same(id@),
            decreases self.per_crate@.len() - i,
        {
            i += 1;
        }
        proof {
            lemma_place_at(before.crates, id@, i as int);
        }
        if i < self.per_crate.len() {
            let kept = self.per_crate[i].0.clone();
            self.per_crate.set(i, (kept, data));
        } else {
            self.per_crate.push((id, data));
        }
        assert(self@ =~= before.update(id@, data@));
    }

    /// The file and the time of the data of each crate.
    pub fn timestamps(&self) -> (r: Vec<(FilePath, u128)>)
        ensures
            r.deep_view() == self@.timestamps(),
    {
        let mut r: Vec<(FilePath, u128)> = Vec::new();
        for i in 0..self.per_crate.len()
            invariant
                r.deep_view() =~= self@.timestamps().take(i as int),
        {
            let ghost before = r.deep_view();
            let entry = (self.per_crate[i].0.path.clone(), self.per_crate[i].1.timestamp());
            r.push(entry);
            assert(r.deep_view() =~= before.push(self@.timestamps()[i as int]));
        }
        assert(self@.timestamps().take(self@.crates.len() as int) =~= self@.timestamps());
        r
    }

    /// The number of crates.
    pub fn crate_count(&self) -> (n: usize)
        ensures
            n == self@.crates.len(),
    {
        self.per_crate.len()
    }

    /// What is known of a crate, by its place.
    pub fn crate_at(&self, i: usize) -> (c: &PerCrateAnalysis)
        requires
            i < self@.crates.len(),
        ensures
            c@ == self@.crates[i as int].1,
    {
        &self.per_crate[i].1
    }

    pub fn doc_url_base(&self) -> (s: &String)
        ensures
            s@ == self@.doc_url_base,
    {
        &self.doc_url_base
    }

    pub fn src_url_base(&self) -> (s: &String)
        ensures
            s@ == self@.src_url_base,
    {
        &self.src_url_base
    }

    /// Whether some crate defines an id.
    pub fn has_def(&self, id: Id) -> (b: bool)
        ensures
            b == (self@.def(id) is Some),
    {
        self.def(id).is_some()
    }

    /// The definition with an id.
    #[verifier::loop_isolation(false)]
    pub fn def(&self, id: Id) -> (r: Option<&Def>)
        ensures
            r.deep_view() == self@.def(id),
            r matches Some(d) ==> d.span.range.row_start < u32::MAX && d.span.range.row_end
                < u32::MAX,
    {
        let ghost ask = |c: CrateView| lookup(c.defs, id);
        for i in 0..self.per_crate.len()
            invariant
                forall|j: int| 0 <= j < i ==> ask((#[trigger] self@.crates[j]).1) is None,
        {
            let r = self.per_crate[i].1.def(id);
            assert(r.deep_view() == ask(self@.crates[i as int].1));
            if r.is_some() {
                proof {
                    lemma_first_at(self@.crates, ask, i as int);
                }
                return r;
            }
        }
        proof {
            lemma_first_at(self@.crates, ask, self@.crates.len() as int);
        }
        None
    }

    /// The id of the definition at a span.
    #[verifier::loop_isolation(false)]
    pub fn id_at(&self, span: &Span) -> (r: Option<Id>)
        ensures
            r.deep_view() == self@.id_at(span@),
    {
        let ghost ask = |c: CrateView| lookup(c.def_id_for_span, span@.key());
        for i in 0..self.per_crate.len()
            invariant
                forall|j: int| 0 <= j < i ==> ask((#[trigger] self@.crates[j]).1) is None,
        {
            let r = self.per_crate[i].1.id_at(span);
            assert(r.deep_view() == ask(self@.crates[i as int].1));
            if r.is_some() {
                proof {
                    lemma_first_at(self@.crates, ask, i as int);
                }
                return r;
            }
        }
        proof {
            lemma_first_at(self@.crates, ask, self@.crates.len() as int);
        }
        None
    }

    /// The id of the definition at a span, in a crate that has both.
    #[verifier::loop_isolation(false)]
    pub fn local_id_at(&self, span: &Span) -> (r: Option<Id>)
        ensures
            r.deep_view() == self@.local_id_at(span@),
    {
        let ghost ask = |c: CrateView| c.local_id_at(span@);
        for i in 0..self.per_crate.len()
            invariant
                forall|j: int| 0 <= j < i ==> ask((#[trigger] self@.crates[j]).1) is None,
        {
            let r = self.per_crate[i].1.local_id_at(span);
            assert(r.deep_view() == ask(self@.crates[i as int].1));
            if r.is_some() {
                proof {
                    lemma_first_at(self@.crates, ask, i as int);
                }
                return r;
            }
        }
        proof {
            lemma_first_at(self@.crates, ask, self@.crates.len() as int);
        }
        None
    }

    /// The spans that refer to a definition.
    #[verifier::loop_isolation(false)]
    pub fn refs(&self, id: Id) -> (r: Option<&Vec<Span>>)
        ensures
            r.deep_view() == self@.refs(id),
    {
        let ghost ask = |c: CrateView| lookup(c.ref_spans, id);
        for i in 0..self.per_crate.len()
            invariant
                forall|j: int| 0 <= j < i ==> ask((#[trigger] self@.crates[j]).1) is None,
        {
            let r = self.per_crate[i].1.refs(id);
            assert(r.deep_view() == ask(self@.crates[i as int].1));
            if r.is_some() {
                proof {
                    lemma_first_at(self@.crates, ask, i as int);
                }
                return r;
            }
        }
        proof {
            lemma_first_at(self@.crates, ask, self@.crates.len() as int);
        }
        None
    }

    /// The value of the glob import at a span.
    #[verifier::loop_isolation(false)]
    pub fn glob(&self, span: &Span) -> (r: Option<&String>)
        ensures
            r.deep_view() == self@.glob(span@),
    {
        let ghost ask = |c: CrateView| lookup(c.globs, span@.key());
        for i in 0..self.per_crate.len()
            invariant
                forall|j: int| 0 <= j < i ==> ask((#[trigger] self@.crates[j]).1) is None,
        {
            let r = self.per_crate[i].1.glob(span);
            assert(r.deep_view() == ask(self@.crates[i as int].1));
            if r.is_some() {
                proof {
                    lemma_first_at(self@.crates, ask, i as int);
                }
                return r;
            }
        }
        proof {
            lemma_first_at(self@.crates, ask, self@.crates.len() as int);
        }
        None
    }

    /// The ids of the definitions in a file.
    #[verifier::loop_isolation(false)]
    pub fn file_defs(&self, file: &FilePath) -> (r: Option<&Vec<Id>>)
        ensures
            r.deep_view() == self@.file_defs(file@),
            r matches Some(ids) ==> forall|j: int|
                0 <= j < ids@.len() ==> self@.def(#[trigger] ids@[j]) is Some,
    {
        let ghost ask = |c: CrateView| lookup(c.defs_per_file, file@.key());
        for i in 0..self.per_crate.len()
            invariant
                forall|j: int| 0 <= j < i ==> ask((#[trigger] self@.crates[j]).1) is None,
        {
            let r = self.per_crate[i].1.file_defs(file);
            assert(r.deep_view() == ask(self@.crates[i as int].1));
            if r.is_some() {
                proof {
                    lemma_first_at(self@.crates, ask, i as int);
                    if let Some(ids) = r {
                        assert forall|j: int| 0 <= j < ids@.len() implies self@.def(
                            #[trigger] ids@[j],
                        ) is Some by {
                            self@.lemma_def_found(ids@[j], i as int);
                        }
                    }
                }
                return r;
            }
        }
        proof {
            lemma_first_at(self@.crates, ask, self@.crates.len() as int);
        }
        None
    }

    /// Calls a function on each child of a definition, with its id.
    #[verifier::loop_isolation(false)]
    pub fn for_each_child<F, T>(&self, id: Id, f: F) -> (r: Vec<T>) where F: FnMut(Id, &Def) -> T
        requires
            forall|child: Id, def: &Def|
                self@.children(id).contains((child, def@)) ==> #[trigger] call_requires(
                    f,
                    (child, def),
                ),
        ensures
            answers_for(f, self@.children(id), r@),
    {
        let ghost ask = |c: CrateView|
            match lookup(c.children, id) {
                Some(ids) => Some(c.defined(ids)),
                None => None,
            };
        for i in 0..self.per_crate.len()
            invariant
                forall|j: int| 0 <= j < i ==> ask((#[trigger] self@.crates[j]).1) is None,
        {
            let data = &self.per_crate[i].1;
            assert(self@.crates[i as int].1 == data@);
            if let Some(ids) = data.children(id) {
                assert(ids.deep_view() =~= ids@);
                proof {
                    lemma_first_at(self@.crates, ask, i as int);
                }
                assert(self@.children(id) == data@.defined(ids@));
                let mut call = f;
                let mut r: Vec<T> = Vec::new();
                for j in 0..ids.len()
                    invariant
                        call == f,
                        answers_for(f, data@.defined(ids@.take(j as int)), r@),
                {
                    assert(ids@.take(j + 1).drop_last() =~= ids@.take(j as int));
                    let child = ids[j];
                    if let Some(def) = data.def(child) {
                        proof {
                            data@.lemma_defined_has(ids@, j as int);
                        }
                        let answer = call(child, def);
                        let ghost of = (child, def@);
                        assert(call_ensures(f, (of.0, def), answer));
                        assert(answers(f, of, answer));
                        r.push(answer);
                    }
                }
                assert(ids@.take(ids@.len() as int) =~= ids@);
                return r;
            }
        }
        proof {
            lemma_first_at(self@.crates, ask, self@.crates.len() as int);
        }
        Vec::new()
    }

    /// The ids of the definitions with a name.
    #[verifier::loop_isolation(false)]
    pub fn ids_named(&self, name: &str) -> (r: Vec<Id>)
        ensures
            r.deep_view() == self@.ids_named(name@),
    {
        let ghost ask = |c: CrateView| or_empty(lookup(c.def_names, name@));
        let mut r: Vec<Id> = Vec::new();
        for i in 0..self.per_crate.len()
            invariant
                r@ =~= all(self@.crates.take(i as int), ask),
        {
            proof {
                lemma_all_next(self@.crates, ask, i as int);
            }
            if let Some(ids) = self.per_crate[i].1.named(name) {
                assert(ids.deep_view() =~= ids@);
                let mut more = copied_ids(ids);
                r.append(&mut more);
            }
        }
        assert(self@.crates.take(self@.crates.len() as int) =~= self@.crates);
        assert(r.deep_view() =~= r@);
        r
    }

    /// The definitions with a name.
    #[verifier::loop_isolation(false)]
    pub fn defs_named(&self, name: &str) -> (r: Vec<Def>)
        ensures
            r.deep_view() == self@.defs_named(name@),
    {
        let ghost second = |d: (Id, DefView)| d.1;
        let ghost ask = |c: CrateView|
            c.defined(or_empty(lookup(c.def_names, name@))).map_values(|d: (Id, DefView)| d.1);
        let mut r: Vec<Def> = Vec::new();
        for i in 0..self.per_crate.len()
            invariant
                r.deep_view() =~= all(self@.crates.take(i as int), ask),
        {
            let ghost before = r.deep_view();
            let data = &self.per_crate[i].1;
            assert(self@.crates[i as int].1 == data@);
            proof {
                lemma_all_next(self@.crates, ask, i as int);
            }
            if let Some(ids) = data.named(name) {
                assert(ids.deep_view() =~= ids@);
                for j in 0..ids.len()
                    invariant
                        r.deep_view() =~= before + data@.defined(ids@.take(j as int)).map_values(
                            second,
                        ),
                {
                    let ghost so_far = r.deep_view();
                    assert(ids@.take(j + 1).drop_last() =~= ids@.take(j as int));
                    if let Some(def) = data.def(ids[j]) {
                        r.push(def.clone());
                        assert(r.deep_view() =~= so_far.push(def@));
                    }
                }
                assert(ids@.take(ids@.len() as int) =~= ids@);
            }
        }
        assert(self@.crates.take(self@.crates.len() as int) =~= self@.crates);
        r
    }

    /// The root module and the name of each crate that has one.
    #[verifier::loop_isolation(false)]
    pub fn roots(&self) -> (r: Vec<(Id, String)>)
        ensures
            r.deep_view() == self@.roots(),
    {
        let ghost ask = |c: CrateView|
            match c.root_id {
                Some(id) => seq![(id, c.name)],
                None => Seq::empty(),
            };
        let mut r: Vec<(Id, String)> = Vec::new();
        for i in 0..self.per_crate.len()
            invariant
                r.deep_view() =~= all(self@.crates.take(i as int), ask),
        {
            let ghost before = r.deep_view();
            let data = &self.per_crate[i].1;
            assert(self@.crates[i as int].1 == data@);
            proof {
                lemma_all_next(self@.crates, ask, i as int);
            }
            if let Some(id) = data.root_id() {
                r.push((id, data.name().clone()));
                assert(r.deep_view() =~= before.push((id, data@.name)));
            }
        }
        assert(self@.crates.take(self@.crates.len() as int) =~= self@.crates);
        r
    }

    /// The spans of the implementations that a definition takes part in.
    #[verifier::loop_isolation(false)]
    pub fn impls(&self, id: Id) -> (r: Vec<Span>)
        ensures
            r.deep_view() == self@.impls(id),
    {
        let ghost ask = |c: CrateView| or_empty(lookup(c.impls, id));
        let mut r: Vec<Span> = Vec::new();
        for i in 0..self.per_crate.len()
            invariant
                r.deep_view() =~= all(self@.crates.take(i as int), ask),
        {
            proof {
                lemma_all_next(self@.crates, ask, i as int);
            }
            if let Some(spans) = self.per_crate[i].1.impls(id) {
                append_spans(&mut r, spans);
            }
        }
        assert(self@.crates.take(self@.crates.len() as int) =~= self@.crates);
        r
    }

    /// The span of a definition and then those of the references to it.
    pub fn def_and_refs(&self, id: Id) -> (r: Option<Vec<Span>>)
        ensures
            r.deep_view() == self@.def_and_refs(id),
    {
        let mut r: Vec<Span> = Vec::new();
        let found = match self.def(id) {
            Some(def) => {
                r.push(def.span.clone());
                true
            },
            None => false,
        };
        assert(r.deep_view() =~= self@.def_span(id));
        match self.refs(id) {
            Some(refs) => {
                append_spans(&mut r, refs);
                Some(r)
            },
            None => if found {
                Some(r)
            } else {
                None
            },
        }
    }

    /// The spans of the definitions with a name and of what refers to them.
    pub fn spans_named(&self, name: &str) -> (r: Vec<Span>)
        ensures
            r.deep_view() == self@.spans_of(self@.ids_named(name@)),
    {
        let ids = self.ids_named(name);
        assert(ids.deep_view() =~= ids@);
        let mut r: Vec<Span> = Vec::new();
        for i in 0..ids.len()
            invariant
                r.deep_view() =~= self@.spans_of(ids@.take(i as int)),
        {
            assert(ids@.take(i + 1).drop_last() =~= ids@.take(i as int));
            if let Some(spans) = self.def_and_refs(ids[i]) {
                append_spans(&mut r, &spans);
            }
        }
        assert(ids@.take(ids@.len() as int) =~= ids@);
        r
    }

    /// The outline of a file.
    #[verifier::loop_isolation(false)]
    pub fn symbols(&self, file: &FilePath) -> (r: Option<Vec<SymbolResult>>)
        ensures
            r.deep_view() == self@.symbols(file@),
    {
        match self.file_defs(file) {
            Some(ids) => {
                assert(ids.deep_view() =~= ids@);
                let ghost outline = ids@.map_values(|id: Id| self@.symbol(id));
                let mut r: Vec<SymbolResult> = Vec::new();
                for i in 0..ids.len()
                    invariant
                        r.deep_view() =~= outline.take(i as int),
                {
                    let ghost before = r.deep_view();
                    let id = ids[i];
                    assert(self@.def(ids@[i as int]) is Some);
                    if let Some(def) = self.def(id) {
                        r.push(SymbolResult::new(id, def));
                    }
                    assert(r.deep_view() =~= before.push(outline[i as int]));
                }
                assert(outline.take(ids@.len() as int) =~= outline);
                Some(r)
            },
            None => None,
        }
    }

    /// The parent of a definition and its name, where the parent is defined.
    #[verifier::loop_isolation(false)]
    pub fn parent(&self, id: Id) -> (r: Option<(Id, String)>)
        ensures
            r.deep_view() == self@.parent(id),
    {
        let ghost ask = |c: CrateView|
            match lookup(c.defs, id) {
                Some(d) => self@.named_parent(d),
                None => None,
            };
        for i in 0..self.per_crate.len()
            invariant
                forall|j: int| 0 <= j < i ==> ask((#[trigger] self@.crates[j]).1) is None,
        {
            let data = &self.per_crate[i].1;
            assert(self@.crates[i as int].1 == data@);
            if let Some(def) = data.def(id) {
                if let Some(parent) = def.parent {
                    if let Some(parent_def) = self.def(parent) {
                        proof {
                            lemma_first_at(self@.crates, ask, i as int);
                        }
                        return Some((parent, parent_def.name.clone()));
                    }
                }
            }
        }
        proof {
            lemma_first_at(self@.crates, ask, self@.crates.len() as int);
        }
        None
    }

    /// The ancestors of a definition and their names, the outermost first.
    pub fn ancestors(&self, id: Id) -> (r: Vec<(Id, String)>)
        requires
            self@.ancestry_ends(id),
        ensures
            r.deep_view() == self@.ancestors(id),
    {
        let mut r: Vec<(Id, String)> = Vec::new();
        let mut next = id;
        let ghost n = choose|n: nat| self@.ancestry_within(id, n);
        let ghost mut left = n;
        assert(r.deep_view() =~= Seq::empty());
        loop
            invariant
                self@.ancestry_within(next, left),
                self@.ancestors_within(id, n) =~= self@.ancestors_within(next, left)
                    + r.deep_view(),
            ensures
                r.deep_view() == self@.ancestors_within(id, n),
            decreases left,
        {
            match self.parent(next) {
                Some((parent, name)) => {
                    let ghost before = r.deep_view();
                    r.insert(0, (parent, name));
                    assert(r.deep_view() =~= seq![(parent, name@)] + before);
                    next = parent;
                    proof {
                        left = (left - 1) as nat;
                    }
                },
                None => {
                    break;
                },
            }
        }
        r
    }
}

} // verus!
