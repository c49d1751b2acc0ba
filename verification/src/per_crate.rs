//! What is known of one crate: its definitions, the references to them, and the
//! tables by which they are found.
use vstd::prelude::*;
use vstd::hash_map::StringHashMap;
use vstd::string::*;

use crate::basics::Id;
use crate::path::{FilePath, PathKey};
use crate::raw::DefKind;
use crate::span::{Span, SpanKey, SpanView};
use crate::table::{IdMap, Table};

verus! {

/// A definition.
#[derive(PartialEq, Eq, Debug)]
pub struct Def {
    pub kind: DefKind,
    pub span: Span,
    pub name: String,
    pub qualname: String,
    /// Whether the definition is in a crate that the compiler is shipped with.
    pub distro_crate: bool,
    pub parent: Option<Id>,
    pub value: String,
    pub docs: String,
}

/// What a [`Def`] holds.
#[verifier::ext_equal]
pub ghost struct DefView {
    pub kind: DefKind,
    pub span: SpanView,
    pub name: Seq<char>,
    pub qualname: Seq<char>,
    pub distro_crate: bool,
    pub parent: Option<Id>,
    pub value: Seq<char>,
    pub docs: Seq<char>,
}

impl View for Def {
    type V = DefView;

    open spec fn view(&self) -> DefView {
        DefView {
            kind: self.kind,
            span: self.span@,
            name: self.name@,
            qualname: self.qualname@,
            distro_crate: self.distro_crate,
            parent: self.parent,
            value: self.value@,
            docs: self.docs@,
        }
    }
}

impl DeepView for Def {
    type V = DefView;

    open spec fn deep_view(&self) -> DefView {
        self@
    }
}

impl Clone for Def {
    fn clone(&self) -> (d: Def)
        ensures
            d@ == self@,
    {
        Def {
            kind: self.kind,
            span: self.span.clone(),
            name: self.name.clone(),
            qualname: self.qualname.clone(),
            distro_crate: self.distro_crate,
            parent: self.parent,
            value: self.value.clone(),
            docs: self.docs.clone(),
        }
    }
}

/// A glob import.
#[derive(PartialEq, Eq, Debug)]
pub struct Glob {
    pub value: String,
}

/// What a map holds under a key, if anything.
pub open spec fn lookup<K, V>(m: Map<K, V>, k: K) -> Option<V> {
    if m.contains_key(k) {
        Some(m[k])
    } else {
        None
    }
}

/// A map of lists with one more element in the list of a key.
pub open spec fn append_to<K, V>(m: Map<K, Seq<V>>, k: K, v: V) -> Map<K, Seq<V>> {
    m.insert(
        k,
        if m.contains_key(k) {
            m[k].push(v)
        } else {
            seq![v]
        },
    )
}

/// A map of lists without repetition with an element in the list of a key.
pub open spec fn add_child(m: Map<Id, Seq<Id>>, parent: Id, child: Id) -> Map<Id, Seq<Id>> {
    if m.contains_key(parent) && m[parent].contains(child) {
        m
    } else {
        append_to(m, parent, child)
    }
}

/// A map of lists without repetition with several elements in the list of a key.
pub open spec fn add_children(m: Map<Id, Seq<Id>>, parent: Id, children: Seq<Id>) -> Map<
    Id,
    Seq<Id>,
>
    decreases children.len(),
{
    if children.len() == 0 {
        m
    } else {
        add_child(add_children(m, parent, children.drop_last()), parent, children.last())
    }
}

/// What is known of one crate.
#[verifier::ext_equal]
pub ghost struct CrateView {
    /// The definition that a span is the span of, or refers to.
    pub def_id_for_span: Map<SpanKey, Id>,
    pub defs: Map<Id, DefView>,
    pub defs_per_file: Map<PathKey, Seq<Id>>,
    pub children: Map<Id, Seq<Id>>,
    pub def_names: Map<Seq<char>, Seq<Id>>,
    pub ref_spans: Map<Id, Seq<SpanView>>,
    pub globs: Map<SpanKey, Seq<char>>,
    pub impls: Map<Id, Seq<SpanView>>,
    pub name: Seq<char>,
    pub root_id: Option<Id>,
    pub timestamp: u128,
}

impl CrateView {
    /// A crate of which nothing is known but its name and the time of its data.
    pub open spec fn blank(name: Seq<char>, timestamp: u128) -> CrateView {
        CrateView {
            def_id_for_span: Map::empty(),
            defs: Map::empty(),
            defs_per_file: Map::empty(),
            children: Map::empty(),
            def_names: Map::empty(),
            ref_spans: Map::empty(),
            globs: Map::empty(),
            impls: Map::empty(),
            name,
            root_id: None,
            timestamp,
        }
    }

    /// The crate with a definition: it is found by its id, its name, its file and
    /// its span, and is a child of its parent. A missing id, or one that is
    /// taken, is passed over. The first module without a name is the root.
    pub open spec fn with_def(self, id: Id, def: DefView, children: Seq<Id>) -> CrateView {
        if id.is_null() || self.defs.contains_key(id) {
            self
        } else {
            CrateView {
                def_id_for_span: self.def_id_for_span.insert(def.span.key(), id),
                defs: self.defs.insert(id, def),
                defs_per_file: append_to(self.defs_per_file, def.span.file.key(), id),
                children: add_children(
                    match def.parent {
                        Some(parent) => add_child(self.children, parent, id),
                        None => self.children,
                    },
                    id,
                    children,
                ),
                def_names: append_to(self.def_names, def.name, id),
                root_id: if self.root_id is None && def.kind == DefKind::Mod && def.name.len()
                    == 0 {
                    Some(id)
                } else {
                    self.root_id
                },
                ..self
            }
        }
    }

    /// The crate with a reference to a definition. A span keeps the definition
    /// that it had first.
    pub open spec fn with_ref(self, id: Id, span: SpanView) -> CrateView {
        CrateView {
            def_id_for_span: if self.def_id_for_span.contains_key(span.key()) {
                self.def_id_for_span
            } else {
                self.def_id_for_span.insert(span.key(), id)
            },
            ref_spans: append_to(self.ref_spans, id, span),
            ..self
        }
    }

    /// The crate with a glob import.
    pub open spec fn with_glob(self, span: SpanView, value: Seq<char>) -> CrateView {
        CrateView { globs: self.globs.insert(span.key(), value), ..self }
    }

    /// The crate with an implementation that a definition takes part in.
    pub open spec fn with_impl(self, id: Id, span: SpanView) -> CrateView {
        CrateView { impls: append_to(self.impls, id, span), ..self }
    }

    /// The definition at a span, if it is one of this crate.
    pub open spec fn local_id_at(self, span: SpanView) -> Option<Id> {
        match lookup(self.def_id_for_span, span.key()) {
            Some(id) => if self.defs.contains_key(id) {
                Some(id)
            } else {
                None
            },
            None => None,
        }
    }

    /// The definitions among some ids, each with its id.
    pub open spec fn defined(self, ids: Seq<Id>) -> Seq<(Id, DefView)>
        decreases ids.len(),
    {
        if ids.len() == 0 {
            Seq::empty()
        } else {
            let before = self.defined(ids.drop_last());
            if self.defs.contains_key(ids.last()) {
                before.push((ids.last(), self.defs[ids.last()]))
            } else {
                before
            }
        }
    }

    /// An id that is listed and defined is among the definitions.
    pub proof fn lemma_defined_has(self, ids: Seq<Id>, i: int)
        requires
            0 <= i < ids.len(),
            self.defs.contains_key(ids[i]),
        ensures
            self.defined(ids).contains((ids[i], self.defs[ids[i]])),
        decreases ids.len(),
    {
        let of = (ids[i], self.defs[ids[i]]);
        let before = self.defined(ids.drop_last());
        if i == ids.len() - 1 {
            assert(self.defined(ids).last() == of);
        } else {
            self.lemma_defined_has(ids.drop_last(), i);
            let k = before.index_of(of);
            assert(self.defined(ids)[k] == of);
        }
    }
}

/// The definitions of a crate, by id and by file. A file lists only ids that
/// are defined, and no definition starts or ends in the last row that can be
/// counted.
pub struct DefTable {
    defs: IdMap<Def>,
    per_file: Table<FilePath, Vec<Id>>,
}

impl DefTable {
    #[verifier::type_invariant]
    spec fn sound(self) -> bool {
        &&& forall|file: PathKey, i: int|
            self.per_file@.contains_key(file) && 0 <= i < self.per_file@[file]@.len()
                ==> self.defs@.contains_key(#[trigger] self.per_file@[file]@[i])
        &&& forall|id: Id| #[trigger]
            self.defs@.contains_key(id) ==> self.defs@[id].span.range.row_start < u32::MAX
                && self.defs@[id].span.range.row_end < u32::MAX
    }

    pub closed spec fn defs(&self) -> Map<Id, DefView> {
        self.defs@.map_values(|d: Def| d@)
    }

    pub closed spec fn per_file(&self) -> Map<PathKey, Seq<Id>> {
        self.per_file@.map_values(|ids: Vec<Id>| ids@)
    }

    pub fn new() -> (t: DefTable)
        ensures
            t.defs() == Map::<Id, DefView>::empty(),
            t.per_file() == Map::<PathKey, Seq<Id>>::empty(),
    {
        let t = DefTable { defs: IdMap::new(), per_file: Table::new() };
        assert(t.defs() =~= Map::<Id, DefView>::empty());
        assert(t.per_file() =~= Map::<PathKey, Seq<Id>>::empty());
        t
    }

    /// The definition with an id.
    pub fn get(&self, id: Id) -> (r: Option<&Def>)
        ensures
            r.deep_view() == lookup(self.defs(), id),
            r matches Some(d) ==> d.span.range.row_start < u32::MAX && d.span.range.row_end
                < u32::MAX,
    {
        proof {
            use_type_invariant(self);
        }
        self.defs.get(id)
    }

    /// The ids listed for a file.
    pub fn in_file(&self, file: &FilePath) -> (r: Option<&Vec<Id>>)
        ensures
            r.deep_view() == lookup(self.per_file(), file@.key()),
            r matches Some(ids) ==> forall|i: int|
                0 <= i < ids@.len() ==> self.defs().contains_key(#[trigger] ids@[i]),
    {
        proof {
            use_type_invariant(self);
        }
        let r = self.per_file.get(file);
        proof {
            if let Some(ids) = r {
                assert(ids.deep_view() =~= ids@);
                assert forall|i: int| 0 <= i < ids@.len() implies self.defs().contains_key(
                    #[trigger] ids@[i],
                ) by {
                    assert(self.defs@.contains_key(self.per_file@[file@.key()]@[i]));
                }
            }
        }
        r
    }

    /// Adds a definition and lists it for its file.
    pub fn insert(self, id: Id, def: Def) -> (t: DefTable)
        requires
            def.span.range.row_start < u32::MAX,
            def.span.range.row_end < u32::MAX,
        ensures
            t.defs() == self.defs().insert(id, def@),
            t.per_file() == append_to(self.per_file(), def@.span.file.key(), id),
    {
        proof {
            use_type_invariant(&self);
        }
        let ghost before = self;
        let ghost file = def@.span.file.key();
        let DefTable { mut defs, mut per_file } = self;
        let mut ids: Vec<Id> = match per_file.get(&def.span.file) {
            Some(listed) => copied_ids(listed),
            None => Vec::new(),
        };
        ids.push(id);
        per_file.insert(def.span.file.clone(), ids);
        defs.insert(id, def);
        proof {
            assert forall|f: PathKey, i: int|
                per_file@.contains_key(f) && 0 <= i < per_file@[f]@.len() implies defs@.contains_key(
                #[trigger] per_file@[f]@[i],
            ) by {
                if f != file || i < ids@.len() - 1 {
                    assert(per_file@[f]@[i] == before.per_file@[f]@[i]);
                }
            }
        }
        let t = DefTable { defs, per_file };
        assert(t.defs() =~= before.defs().insert(id, def@));
        assert(t.per_file() =~= append_to(before.per_file(), file, id)) by {
            if !before.per_file@.contains_key(file) {
                assert(ids@ =~= seq![id]);
            }
        }
        t
    }
}

/// Copies a list of ids.
pub fn copied_ids(ids: &Vec<Id>) -> (r: Vec<Id>)
    ensures
        r@ == ids@,
{
    let mut r: Vec<Id> = Vec::new();
    for i in 0..ids.len()
        invariant
            r@ =~= ids@.take(i as int),
    {
        r.push(ids[i]);
    }
    assert(ids@.take(ids@.len() as int) =~= ids@);
    r
}

/// Copies a list of spans.
pub fn copied_spans(spans: &Vec<Span>) -> (r: Vec<Span>)
    ensures
        r.deep_view() == spans.deep_view(),
{
    let mut r: Vec<Span> = Vec::new();
    append_spans(&mut r, spans);
    assert(r.deep_view() =~= spans.deep_view());
    r
}

/// Copies a list of spans to the end of another.
pub fn append_spans(to: &mut Vec<Span>, spans: &Vec<Span>)
    ensures
        final(to).deep_view() == old(to).deep_view() + spans.deep_view(),
{
    let ghost before = to.deep_view();
    for i in 0..spans.len()
        invariant
            to.deep_view() =~= before + spans.deep_view().take(i as int),
    {
        let ghost t = to.deep_view();
        let s = spans[i].clone();
        to.push(s);
        assert(to.deep_view() =~= t.push(spans.deep_view()[i as int]));
    }
    assert(spans.deep_view().take(spans@.len() as int) =~= spans.deep_view());
}

/// What is known of one crate.
pub struct PerCrateAnalysis {
    def_id_for_span: Table<Span, Id>,
    def_table: DefTable,
    children: IdMap<Vec<Id>>,
    def_names: StringHashMap<Vec<Id>>,
    ref_spans: IdMap<Vec<Span>>,
    globs: Table<Span, Glob>,
    impls: IdMap<Vec<Span>>,
    name: String,
    root_id: Option<Id>,
    timestamp: u128,
}

impl View for PerCrateAnalysis {
    type V = CrateView;

    closed spec fn view(&self) -> CrateView {
        CrateView {
            def_id_for_span: self.def_id_for_span@,
            defs: self.def_table.defs(),
            defs_per_file: self.def_table.per_file(),
            children: self.children@.map_values(|ids: Vec<Id>| ids@),
            def_names: self.def_names@.map_values(|ids: Vec<Id>| ids@),
            ref_spans: self.ref_spans@.map_values(|spans: Vec<Span>| spans.deep_view()),
            globs: self.globs@.map_values(|glob: Glob| glob.value@),
            impls: self.impls@.map_values(|spans: Vec<Span>| spans.deep_view()),
            name: self.name@,
            root_id: self.root_id,
            timestamp: self.timestamp,
        }
    }
}

/// Whether a list of ids holds an id.
pub fn has_id(ids: &Vec<Id>, id: Id) -> (b: bool)
    ensures
        b == ids@.contains(id),
{
    for i in 0..ids.len()
        invariant
            forall|j: int| 0 <= j < i ==> ids@[j] != id,
    {
        if ids[i] == id {
            assert(ids@[i as int] == id);
            return true;
        }
    }
    false
}

/// Adds a span to the list of an id.
fn push_span(m: &mut IdMap<Vec<Span>>, id: Id, span: Span)
    ensures
        final(m)@.map_values(|spans: Vec<Span>| spans.deep_view()) == append_to(
            old(m)@.map_values(|spans: Vec<Span>| spans.deep_view()),
            id,
            span@,
        ),
{
    let ghost before = m@;
    let ghost f = |spans: Vec<Span>| spans.deep_view();
    let mut spans: Vec<Span> = match m.remove(id) {
        Some(spans) => spans,
        None => Vec::new(),
    };
    let ghost listed = spans.deep_view();
    spans.push(span);
    assert(spans.deep_view() =~= listed.push(span@));
    assert(!before.contains_key(id) ==> spans.deep_view() =~= seq![span@]);
    m.insert(id, spans);
    assert(m@.map_values(f) =~= append_to(before.map_values(f), id, span@));
}

/// Adds a child to the list of its parent, unless it is there.
fn push_child(m: &mut IdMap<Vec<Id>>, parent: Id, child: Id)
    ensures
        final(m)@.map_values(|ids: Vec<Id>| ids@) == add_child(
            old(m)@.map_values(|ids: Vec<Id>| ids@),
            parent,
            child,
        ),
{
    let ghost before = m@;
    let ghost f = |ids: Vec<Id>| ids@;
    let mut ids: Vec<Id> = match m.remove(parent) {
        Some(ids) => ids,
        None => Vec::new(),
    };
    if !has_id(&ids, child) {
        ids.push(child);
    }
    assert(!before.contains_key(parent) ==> ids@ =~= seq![child]);
    m.insert(parent, ids);
    assert(m@.map_values(f) =~= add_child(before.map_values(f), parent, child));
}

impl PerCrateAnalysis {
    pub fn new(name: String, timestamp: u128) -> (c: PerCrateAnalysis)
        ensures
            c@ == CrateView::blank(name@, timestamp),
    {
        let c = PerCrateAnalysis {
            def_id_for_span: Table::new(),
            def_table: DefTable::new(),
            children: IdMap::new(),
            def_names: StringHashMap::new(),
            ref_spans: IdMap::new(),
            globs: Table::new(),
            impls: IdMap::new(),
            name,
            root_id: None,
            timestamp,
        };
        assert(c@ =~= CrateView::blank(name@, timestamp));
        c
    }

    /// Records a definition and its children.
    pub fn record_def(&mut self, id: Id, def: Def, children: &Vec<Id>)
        requires
            def.span.range.row_start < u32::MAX,
            def.span.range.row_end < u32::MAX,
        ensures
            final(self)@ == old(self)@.with_def(id, def@, children@),
    {
        if id == Id::null() || self.has_def(id) {
            return;
        }
        let ghost before = self@;
        let ghost d = def@;
        self.def_id_for_span.insert(def.span.clone(), id);
        let mut ids: Vec<Id> = match self.def_names.get(def.name.as_str()) {
            Some(named) => copied_ids(named),
            None => Vec::new(),
        };
        ids.push(id);
        assert(!before.def_names.contains_key(d.name) ==> ids@ =~= seq![id]);
        self.def_names.insert(def.name.clone(), ids);
        assert(self@.def_names =~= append_to(before.def_names, d.name, id));
        if let Some(parent) = def.parent {
            push_child(&mut self.children, parent, id);
        }
        let ghost base = self@.children;
        for i in 0..children.len()
            invariant
                self@ == (CrateView {
                    children: add_children(base, id, children@.take(i as int)),
                    ..self@
                }),
                self@.def_id_for_span == before.def_id_for_span.insert(d.span.key(), id),
                self@.def_names == append_to(before.def_names, d.name, id),
                self@.defs == before.defs,
                self@.defs_per_file == before.defs_per_file,
                self@.ref_spans == before.ref_spans,
                self@.globs == before.globs,
                self@.impls == before.impls,
                self@.name == before.name,
                self@.root_id == before.root_id,
                self@.timestamp == before.timestamp,
        {
            let ghost c = children@.take(i + 1);
            assert(c.drop_last() =~= children@.take(i as int));
            push_child(&mut self.children, id, children[i]);
        }
        assert(children@.take(children@.len() as int) =~= children@);
        if self.root_id.is_none() && def.kind == DefKind::Mod && def.name.as_str().is_empty() {
            self.root_id = Some(id);
        }
        let mut table = DefTable::new();
        std::mem::swap(&mut table, &mut self.def_table);
        self.def_table = table.insert(id, def);
        assert(self@ =~= before.with_def(id, d, children@));
    }

    /// Records a reference to a definition.
    pub fn record_ref(&mut self, id: Id, span: Span)
        ensures
            final(self)@ == old(self)@.with_ref(id, span@),
    {
        let ghost before = self@;
        if self.def_id_for_span.get(&span).is_none() {
            self.def_id_for_span.insert(span.clone(), id);
        }
        push_span(&mut self.ref_spans, id, span);
        assert(self@ =~= before.with_ref(id, span@));
    }

    /// Records a glob import.
    pub fn record_glob(&mut self, span: Span, glob: Glob)
        ensures
            final(self)@ == old(self)@.with_glob(span@, glob.value@),
    {
        let ghost before = self@;
        self.globs.insert(span, glob);
        assert(self@ =~= before.with_glob(span@, glob.value@)) by {
            assert(self@.globs =~= before.globs.insert(span@.key(), glob.value@));
        }
    }

    /// Records an implementation that a definition takes part in.
    pub fn record_impl(&mut self, id: Id, span: Span)
        ensures
            final(self)@ == old(self)@.with_impl(id, span@),
    {
        let ghost before = self@;
        push_span(&mut self.impls, id, span);
        assert(self@ =~= before.with_impl(id, span@));
    }

    /// Whether a definition is in this crate.
    pub fn has_def(&self, id: Id) -> (b: bool)
        ensures
            b == self@.defs.contains_key(id),
    {
        self.def_table.get(id).is_some()
    }

    /// The definition with an id.
    pub fn def(&self, id: Id) -> (r: Option<&Def>)
        ensures
            r.deep_view() == lookup(self@.defs, id),
            r matches Some(d) ==> d.span.range.row_start < u32::MAX && d.span.range.row_end
                < u32::MAX,
    {
        self.def_table.get(id)
    }

    /// The id of the definition at a span.
    pub fn id_at(&self, span: &Span) -> (r: Option<Id>)
        ensures
            r == lookup(self@.def_id_for_span, span@.key()),
    {
        match self.def_id_for_span.get(span) {
            Some(id) => Some(*id),
            None => None,
        }
    }

    /// The id of the definition at a span, if it is one of this crate.
    pub fn local_id_at(&self, span: &Span) -> (r: Option<Id>)
        ensures
            r == self@.local_id_at(span@),
    {
        match self.id_at(span) {
            Some(id) => if self.has_def(id) {
                Some(id)
            } else {
                None
            },
            None => None,
        }
    }

    /// The ids of the definitions in a file.
    pub fn file_defs(&self, file: &FilePath) -> (r: Option<&Vec<Id>>)
        ensures
            r.deep_view() == lookup(self@.defs_per_file, file@.key()),
            r matches Some(ids) ==> forall|i: int|
                0 <= i < ids@.len() ==> self@.defs.contains_key(#[trigger] ids@[i]),
    {
        self.def_table.in_file(file)
    }

    /// The ids of the children of a definition.
    pub fn children(&self, id: Id) -> (r: Option<&Vec<Id>>)
        ensures
            r.deep_view() == lookup(self@.children, id),
    {
        let r = self.children.get(id);
        assert(r matches Some(ids) ==> ids.deep_view() =~= ids@);
        r
    }

    /// The ids of the definitions with a name.
    pub fn named(&self, name: &str) -> (r: Option<&Vec<Id>>)
        ensures
            r.deep_view() == lookup(self@.def_names, name@),
    {
        let r = self.def_names.get(name);
        assert(r matches Some(ids) ==> ids.deep_view() =~= ids@);
        r
    }

    /// The spans that refer to a definition.
    pub fn refs(&self, id: Id) -> (r: Option<&Vec<Span>>)
        ensures
            r.deep_view() == lookup(self@.ref_spans, id),
    {
        self.ref_spans.get(id)
    }

    /// The value of the glob import at a span.
    pub fn glob(&self, span: &Span) -> (r: Option<&String>)
        ensures
            r.deep_view() == lookup(self@.globs, span@.key()),
    {
        match self.globs.get(span) {
            Some(glob) => Some(&glob.value),
            None => None,
        }
    }

    /// The spans of the implementations that a definition takes part in.
    pub fn impls(&self, id: Id) -> (r: Option<&Vec<Span>>)
        ensures
            r.deep_view() == lookup(self@.impls, id),
    {
        self.impls.get(id)
    }

    pub fn name(&self) -> (r: &String)
        ensures
            r@ == self@.name,
    {
        &self.name
    }

    pub fn root_id(&self) -> (r: Option<Id>)
        ensures
            r == self@.root_id,
    {
        self.root_id
    }

    pub fn timestamp(&self) -> (r: u128)
        ensures
            r == self@.timestamp,
    {
        self.timestamp
    }
}

} // verus!
