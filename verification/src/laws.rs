//! What every load keeps, and what it leaves as it was.
use vstd::prelude::*;

use crate::analysis::{lemma_place_at, place_in, AnalysisView};
use crate::basics::{AError, AResult, CrateIdView, Id};
use crate::host::{hard_reloaded, imported, updated, AnalysisHost, HostView};
use crate::loader::AnalysisLoader;
use crate::lowering::{
    can_lower, crate_id, crate_names, lemma_number_kept, lemma_numbered_has, lowered_crate,
    lowered_span, numbered, numbered_all, numbers_after, reader_for, ReaderView,
};
use crate::path::{FilePath, PathKey, PathView};
use crate::per_crate::{add_child, add_children, append_to, CrateView, DefView};
use crate::raw;
use crate::raw::DefKind;
use crate::reading::{blacklisted, path_in, recorded, wanted};
use crate::span::SpanView;

verus! {

impl CrateView {
    /// Whether the tables of a crate agree: a definition is listed under its name
    /// and its file and there only, its span leads somewhere, it is a child of
    /// its parent, and the root is a module without a name.
    pub open spec fn consistent(self) -> bool {
        &&& forall|id: Id| #[trigger]
            self.defs.contains_key(id) ==> {
                let d = self.defs[id];
                &&& !id.is_null()
                &&& listed(self.def_names, d.name, id)
                &&& listed(self.defs_per_file, d.span.file.key(), id)
                &&& self.def_id_for_span.contains_key(d.span.key())
                &&& d.parent matches Some(p) ==> listed(self.children, p, id)
            }
        &&& forall|name: Seq<char>, id: Id| #[trigger]
            listed(self.def_names, name, id) ==> self.defs.contains_key(id) && self.defs[id].name
                == name
        &&& forall|file: PathKey, id: Id| #[trigger]
            listed(self.defs_per_file, file, id) ==> self.defs.contains_key(id)
                && self.defs[id].span.file.key() == file
        &&& self.root_id matches Some(id) ==> self.defs.contains_key(id) && self.defs[id].kind
            == DefKind::Mod && self.defs[id].name.len() == 0
    }
}

/// Whether a list holds an element under a key.
pub open spec fn listed<K, V>(m: Map<K, Seq<V>>, k: K, v: V) -> bool {
    m.contains_key(k) && m[k].contains(v)
}

/// What [`append_to`] lists.
pub proof fn lemma_listed_append<K, V>(m: Map<K, Seq<V>>, k: K, v: V, other: K, w: V)
    ensures
        listed(append_to(m, k, v), other, w) == (listed(m, other, w) || (other == k && w == v)),
{
    let after = append_to(m, k, v);
    if other == k {
        assert(after[k].last() == v);
        if m.contains_key(k) {
            if m[k].contains(w) {
                let i = m[k].index_of(w);
                assert(after[k][i] == w);
            }
            if after[k].contains(w) && w != v {
                let i = after[k].index_of(w);
                assert(m[k][i] == w);
            }
        }
    }
}

/// What [`add_child`] lists stays listed.
pub proof fn lemma_listed_child(m: Map<Id, Seq<Id>>, p: Id, c: Id, q: Id, d: Id)
    ensures
        listed(add_child(m, p, c), q, d) == (listed(m, q, d) || (q == p && d == c)),
{
    lemma_listed_append(m, p, c, q, d);
}

/// What [`add_children`] adds to stays listed.
proof fn lemma_listed_children(m: Map<Id, Seq<Id>>, p: Id, cs: Seq<Id>, q: Id, d: Id)
    requires
        listed(m, q, d),
    ensures
        listed(add_children(m, p, cs), q, d),
    decreases cs.len(),
{
    if cs.len() > 0 {
        lemma_listed_children(m, p, cs.drop_last(), q, d);
        lemma_listed_child(add_children(m, p, cs.drop_last()), p, cs.last(), q, d);
    }
}

/// Recording a definition keeps the tables of a crate in agreement.
pub proof fn law_record_def_keeps_tables(c: CrateView, id: Id, d: DefView, children: Seq<Id>)
    requires
        c.consistent(),
    ensures
        c.with_def(id, d, children).consistent(),
{
    let after = c.with_def(id, d, children);
    if !id.is_null() && !c.defs.contains_key(id) {
        let with_parent = match d.parent {
            Some(p) => add_child(c.children, p, id),
            None => c.children,
        };
        assert forall|k: Id| #[trigger] after.defs.contains_key(k) implies {
            let e = after.defs[k];
            &&& !k.is_null()
            &&& listed(after.def_names, e.name, k)
            &&& listed(after.defs_per_file, e.span.file.key(), k)
            &&& after.def_id_for_span.contains_key(e.span.key())
            &&& e.parent matches Some(p) ==> listed(after.children, p, k)
        } by {
            let e = after.defs[k];
            lemma_listed_append(c.def_names, d.name, id, e.name, k);
            lemma_listed_append(c.defs_per_file, d.span.file.key(), id, e.span.file.key(), k);
            if k != id {
                assert(c.defs.contains_key(k));
            }
            if let Some(p) = e.parent {
                if let Some(q) = d.parent {
                    lemma_listed_child(c.children, q, id, p, k);
                }
                lemma_listed_children(with_parent, id, children, p, k);
            }
        }
        assert forall|name: Seq<char>, k: Id| #[trigger]
            listed(after.def_names, name, k) implies after.defs.contains_key(k)
            && after.defs[k].name == name by {
            lemma_listed_append(c.def_names, d.name, id, name, k);
            if listed(c.def_names, name, k) {
                assert(c.defs.contains_key(k));
            }
        }
        assert forall|file: PathKey, k: Id| #[trigger]
            listed(after.defs_per_file, file, k) implies after.defs.contains_key(k)
            && after.defs[k].span.file.key() == file by {
            lemma_listed_append(c.defs_per_file, d.span.file.key(), id, file, k);
            if listed(c.defs_per_file, file, k) {
                assert(c.defs.contains_key(k));
            }
        }
    }
}

/// Recording a reference, a glob import or an implementation keeps the tables of
/// a crate in agreement.
pub proof fn law_record_use_keeps_tables(c: CrateView, id: Id, span: SpanView, value: Seq<char>)
    requires
        c.consistent(),
    ensures
        c.with_ref(id, span).consistent(),
        c.with_glob(span, value).consistent(),
        c.with_impl(id, span).consistent(),
{
    let after = c.with_ref(id, span);
    assert forall|k: Id| #[trigger] after.defs.contains_key(k) implies {
        let e = after.defs[k];
        &&& !k.is_null()
        &&& listed(after.def_names, e.name, k)
        &&& listed(after.defs_per_file, e.span.file.key(), k)
        &&& after.def_id_for_span.contains_key(e.span.key())
        &&& e.parent matches Some(p) ==> listed(after.children, p, k)
    } by {
        assert(c.defs.contains_key(k));
    }
}

pub proof fn lemma_defs_consistent(reader: ReaderView, c: CrateView, defs: Seq<raw::Def>)
    requires
        c.consistent(),
    ensures
        reader.with_defs(c, defs).consistent(),
    decreases defs.len(),
{
    if defs.len() > 0 {
        lemma_defs_consistent(reader, c, defs.drop_last());
        let def = defs.last();
        if let Some(span) = lowered_span(def.span, reader.base_dir) {
            law_record_def_keeps_tables(
                reader.with_defs(c, defs.drop_last()),
                reader.id(def.id),
                reader.def(def, span),
                def.children@.map_values(|id: raw::CompilerId| reader.id(id)),
            );
        }
    }
}

proof fn lemma_ref_consistent(
    reader: ReaderView,
    c: CrateView,
    known: Option<AnalysisView>,
    id: raw::CompilerId,
    span: raw::SpanData,
)
    requires
        c.consistent(),
    ensures
        reader.with_ref(c, known, id, span).consistent(),
{
    if let Some(s) = lowered_span(span, reader.base_dir) {
        law_record_use_keeps_tables(c, reader.id(id), s, Seq::empty());
    }
}

proof fn lemma_imports_consistent(
    reader: ReaderView,
    c: CrateView,
    known: Option<AnalysisView>,
    imports: Seq<raw::Import>,
)
    requires
        c.consistent(),
    ensures
        reader.with_imports(c, known, imports).consistent(),
    decreases imports.len(),
{
    if imports.len() > 0 {
        lemma_imports_consistent(reader, c, known, imports.drop_last());
        let before = reader.with_imports(c, known, imports.drop_last());
        let import = imports.last();
        if let Some(s) = lowered_span(import.span, reader.base_dir) {
            law_record_use_keeps_tables(before, Id(0), s, import.value@);
        }
        if let Some(id) = import.ref_id {
            lemma_ref_consistent(reader, before, known, id, import.span);
        }
    }
}

proof fn lemma_refs_consistent(
    reader: ReaderView,
    c: CrateView,
    known: Option<AnalysisView>,
    refs: Seq<raw::Ref>,
)
    requires
        c.consistent(),
    ensures
        reader.with_refs(c, known, refs).consistent(),
    decreases refs.len(),
{
    if refs.len() > 0 {
        lemma_refs_consistent(reader, c, known, refs.drop_last());
        lemma_ref_consistent(
            reader,
            reader.with_refs(c, known, refs.drop_last()),
            known,
            refs.last().ref_id,
            refs.last().span,
        );
    }
}

proof fn lemma_relations_consistent(
    reader: ReaderView,
    c: CrateView,
    known: Option<AnalysisView>,
    relations: Seq<raw::Relation>,
)
    requires
        c.consistent(),
    ensures
        reader.with_relations(c, known, relations).consistent(),
    decreases relations.len(),
{
    if relations.len() > 0 {
        lemma_relations_consistent(reader, c, known, relations.drop_last());
        let before = reader.with_relations(c, known, relations.drop_last());
        let relation = relations.last();
        if let Some(s) = lowered_span(relation.span, reader.base_dir) {
            let from = reader.id(relation.from);
            law_record_use_keeps_tables(before, from, s, Seq::empty());
            law_record_use_keeps_tables(
                reader.with_impl(before, known, from, s),
                reader.id(relation.to),
                s,
                Seq::empty(),
            );
        }
    }
}

/// The tables of a crate that was lowered agree, whatever its data was.
pub proof fn law_lowered_crate_consistent(
    numbers: Map<Seq<char>, u32>,
    known: Option<AnalysisView>,
    krate: raw::Crate,
    base_dir: PathView,
)
    ensures
        lowered_crate(numbers, known, krate, base_dir).consistent(),
{
    let reader = reader_for(numbers, krate, base_dir);
    let data = krate.analysis;
    let c = CrateView::blank(krate.analysis.prelude->0.crate_name@, krate.timestamp);
    assert(c.consistent());
    lemma_defs_consistent(reader, c, data.defs@);
    let c = reader.with_defs(c, data.defs@);
    lemma_imports_consistent(reader, c, known, data.imports@);
    let c = reader.with_imports(c, known, data.imports@);
    lemma_refs_consistent(reader, c, known, data.refs@);
    let c = reader.with_refs(c, known, data.refs@);
    lemma_relations_consistent(reader, c, known, data.relations@);
}

impl AnalysisView {
    /// Whether no crate is there twice and the tables of each agree.
    pub open spec fn consistent(self) -> bool {
        &&& forall|i: int, j: int|
            0 <= i < j < self.crates.len() ==> !(#[trigger] self.crates[i]).0.same(
                (#[trigger] self.crates[j]).0,
            )
        &&& forall|i: int|
            0 <= i < self.crates.len() ==> (#[trigger] self.crates[i]).1.consistent()
    }
}

impl HostView {
    /// Whether what is loaded, if anything is, is consistent.
    pub open spec fn consistent(self) -> bool {
        self.analysis matches Some(a) ==> a.consistent()
    }
}

/// Where [`AnalysisView::place`] finds a crate.
pub proof fn lemma_place_from(crates: Seq<(CrateIdView, CrateView)>, id: CrateIdView)
    ensures
        0 <= place_in(crates, id) <= crates.len(),
        forall|j: int| 0 <= j < place_in(crates, id) ==> !(#[trigger] crates[j]).0.same(id),
        place_in(crates, id) < crates.len() ==> crates[place_in(crates, id)].0.same(id),
    decreases crates.len(),
{
    if crates.len() > 0 && !crates[0].0.same(id) {
        let rest = crates.skip(1);
        lemma_place_from(rest, id);
        assert forall|j: int| 0 <= j < place_in(crates, id) implies !(
        #[trigger] crates[j]).0.same(id) by {
            if j > 0 {
                assert(rest[j - 1] == crates[j]);
            }
        }
        if place_in(rest, id) < rest.len() {
            assert(rest[place_in(rest, id)] == crates[place_in(crates, id)]);
        }
    }
}

impl AnalysisView {
    /// What is known of a crate, if it is loaded.
    pub open spec fn data_of(self, id: CrateIdView) -> Option<CrateView> {
        if self.place(id) < self.crates.len() {
            Some(self.crates[self.place(id)].1)
        } else {
            None
        }
    }
}

/// What was recorded for a crate is what is known of it afterwards, and nothing
/// changes for any other crate.
pub proof fn law_update_reads_back(
    a: AnalysisView,
    id: CrateIdView,
    data: CrateView,
    other: CrateIdView,
)
    ensures
        a.update(id, data).data_of(id) == Some(data),
        !other.same(id) ==> a.update(id, data).data_of(other) == a.data_of(other),
{
    let after = a.update(id, data);
    lemma_place_from(a.crates, id);
    lemma_place_from(a.crates, other);
    lemma_place_at(after.crates, id, a.place(id));
    if !other.same(id) {
        let i = a.place(other);
        if i < a.crates.len() {
            assert(after.crates[i] == a.crates[i]);
            lemma_place_at(after.crates, other, i);
        } else {
            assert(after.crates.len() >= a.crates.len());
            assert forall|j: int| 0 <= j < after.crates.len() implies !(
            #[trigger] after.crates[j]).0.same(other) by {
                if j < a.crates.len() && j != a.place(id) {
                    assert(after.crates[j] == a.crates[j]);
                }
            }
            lemma_place_at(after.crates, other, after.crates.len() as int);
        }
    }
}

/// Recording a crate whose tables agree keeps a project consistent.
pub proof fn law_update_keeps_consistent(a: AnalysisView, id: CrateIdView, data: CrateView)
    requires
        a.consistent(),
        data.consistent(),
    ensures
        a.update(id, data).consistent(),
{
    lemma_place_from(a.crates, id);
    let after = a.update(id, data);
    assert forall|i: int, j: int| 0 <= i < j < after.crates.len() implies !(
    #[trigger] after.crates[i]).0.same((#[trigger] after.crates[j]).0) by {
        if j < a.crates.len() {
            assert(!a.crates[i].0.same(a.crates[j].0));
        }
    }
}

/// Loading crates, however far it comes, keeps a host consistent.
pub proof fn law_lower_keeps_consistent(h: HostView, krates: Seq<raw::Crate>, base_dir: PathView)
    requires
        h.consistent(),
        h.analysis is Some || h.analysis_poisoned,
    ensures
        h.lower_all(krates, base_dir).0.consistent(),
    decreases krates.len(),
{
    if krates.len() > 0 {
        let (next, result) = h.lower_one(krates[0], base_dir);
        law_lowered_crate_consistent(h.numbers, h.known(), krates[0], base_dir);
        if result is Ok {
            law_update_keeps_consistent(
                h.analysis->0,
                crate_id(krates[0]),
                lowered_crate(h.numbers, h.known(), krates[0], base_dir),
            );
            law_lower_keeps_consistent(next, krates.skip(1), base_dir);
        }
    }
}

/// Reading everything again leaves a host consistent: on success what is loaded
/// is, and on failure nothing new is there.
pub proof fn law_hard_reload_keeps_consistent(
    h: HostView,
    fresh: HostView,
    krates: Seq<raw::Crate>,
    base_dir: PathView,
)
    requires
        h.consistent(),
    ensures
        h.hard_reload(fresh, krates, base_dir).0.consistent(),
{
    law_lower_keeps_consistent(fresh.emptied(), krates, base_dir);
}

/// A crate that was loaded is known as its data was lowered.
pub proof fn law_lower_reads_back(h: HostView, krate: raw::Crate, base_dir: PathView)
    requires
        h.lower_one(krate, base_dir).1 is Ok,
    ensures
        h.lower_one(krate, base_dir).0.analysis->0.data_of(crate_id(krate)) == Some(
            lowered_crate(h.numbers, h.known(), krate, base_dir),
        ),
{
    law_update_reads_back(
        h.analysis->0,
        crate_id(krate),
        lowered_crate(h.numbers, h.known(), krate, base_dir),
        crate_id(krate),
    );
}

/// Crates that are not read again stay as they are.
pub proof fn law_reload_keeps_other_crates(
    h: HostView,
    krates: Seq<raw::Crate>,
    base_dir: PathView,
    other: CrateIdView,
)
    requires
        h.analysis is Some,
        forall|i: int| 0 <= i < krates.len() ==> !crate_id(#[trigger] krates[i]).same(other),
    ensures
        h.lower_all(krates, base_dir).0.analysis is Some,
        h.lower_all(krates, base_dir).0.analysis->0.data_of(other) == h.analysis->0.data_of(other),
    decreases krates.len(),
{
    if krates.len() > 0 {
        let (next, result) = h.lower_one(krates[0], base_dir);
        assert(!crate_id(krates[0]).same(other));
        if result is Ok {
            law_update_reads_back(
                h.analysis->0,
                crate_id(krates[0]),
                lowered_crate(h.numbers, h.known(), krates[0], base_dir),
                other,
            );
            let rest = krates.skip(1);
            assert forall|i: int| 0 <= i < rest.len() implies !crate_id(#[trigger] rest[i]).same(
                other,
            ) by {
                assert(rest[i] == krates[i + 1]);
            }
            law_reload_keeps_other_crates(next, rest, base_dir, other);
        }
    }
}

/// After everything was read again only what was read is loaded, and it does not
/// matter what was loaded before.
pub proof fn law_hard_reload_forgets(
    h: HostView,
    other: HostView,
    fresh: HostView,
    krates: Seq<raw::Crate>,
    base_dir: PathView,
)
    requires
        !h.analysis_poisoned,
        !h.numbers_poisoned,
        !other.analysis_poisoned,
        !other.numbers_poisoned,
    ensures
        h.hard_reload(fresh, krates, base_dir).1 == other.hard_reload(fresh, krates, base_dir).1,
        h.hard_reload(fresh, krates, base_dir).0.analysis == other.hard_reload(
            fresh,
            krates,
            base_dir,
        ).0.analysis,
        h.hard_reload(fresh, krates, base_dir).1 is Ok ==> h.hard_reload(
            fresh,
            krates,
            base_dir,
        ).0 == other.hard_reload(fresh, krates, base_dir).0,
{
}

/// Where reading everything again fails and the lock is sound, nothing stays
/// loaded: every query fails from then on. The numbers of crates stay.
pub proof fn law_failed_hard_reload_clears<T>(
    h: HostView,
    fresh: HostView,
    krates: Seq<raw::Crate>,
    base_dir: PathView,
    ask: spec_fn(AnalysisView) -> Option<T>,
)
    requires
        !h.analysis_poisoned,
        fresh.emptied().lower_all(krates, base_dir).1 is Err,
    ensures
        h.hard_reload(fresh, krates, base_dir).1 is Err,
        h.hard_reload(fresh, krates, base_dir).0.query(ask) == Err::<T, AError>(
            AError::Unclassified,
        ),
        h.hard_reload(fresh, krates, base_dir).0.numbers == h.numbers,
{
}

/// Where all crates were lowered but a lock of the host is poisoned, reading
/// everything again fails and what is loaded stays. The numbers of crates are
/// replaced only where it is not their own lock that is poisoned.
pub proof fn law_hard_reload_asks_own_locks(
    h: HostView,
    fresh: HostView,
    krates: Seq<raw::Crate>,
    base_dir: PathView,
)
    requires
        h.analysis_poisoned || h.numbers_poisoned,
        fresh.emptied().lower_all(krates, base_dir).1 is Ok,
    ensures
        h.hard_reload(fresh, krates, base_dir).1 == Err::<(), AError>(AError::MutexPoison),
        h.hard_reload(fresh, krates, base_dir).0.analysis == h.analysis,
        h.numbers_poisoned ==> h.hard_reload(fresh, krates, base_dir).0 == h,
        !h.numbers_poisoned && !fresh.numbers_poisoned ==> h.hard_reload(
            fresh,
            krates,
            base_dir,
        ).0.numbers == fresh.emptied().lower_all(krates, base_dir).0.numbers,
{
    fresh.emptied().lemma_lower_all(krates, base_dir);
}

/// A query answers only where something is loaded and the lock is sound; the
/// error says which of the two failed.
pub proof fn law_query_needs_data<T>(h: HostView, ask: spec_fn(AnalysisView) -> Option<T>)
    ensures
        h.query(ask) is Ok ==> !h.analysis_poisoned && h.analysis is Some,
        h.analysis_poisoned <==> h.query(ask) == Err::<T, AError>(AError::MutexPoison),
        !h.analysis_poisoned && h.analysis is None ==> h.query(ask) == Err::<T, AError>(
            AError::Unclassified,
        ),
{
}

/// The times that the next reload goes by hold that of every crate that was
/// loaded.
pub proof fn law_timestamp_recorded(h: HostView, krate: raw::Crate, base_dir: PathView) -> (i: int)
    requires
        h.lower_one(krate, base_dir).1 is Ok,
    ensures
        0 <= i < h.lower_one(krate, base_dir).0.analysis->0.timestamps().len(),
        h.lower_one(krate, base_dir).0.analysis->0.timestamps()[i].0.key() == krate.path@.key(),
        h.lower_one(krate, base_dir).0.analysis->0.timestamps()[i].1 == krate.timestamp,
{
    let a = h.lower_one(krate, base_dir).0.analysis->0;
    law_lower_reads_back(h, krate, base_dir);
    lemma_place_from(a.crates, crate_id(krate));
    lemma_lowered_timestamp(h.numbers, h.known(), krate, base_dir);
    a.place(crate_id(krate))
}

proof fn lemma_lowered_timestamp(
    numbers: Map<Seq<char>, u32>,
    known: Option<AnalysisView>,
    krate: raw::Crate,
    base_dir: PathView,
)
    ensures
        lowered_crate(numbers, known, krate, base_dir).timestamp == krate.timestamp,
        lowered_crate(numbers, known, krate, base_dir).name
            == krate.analysis.prelude->0.crate_name@,
{
    let reader = reader_for(numbers, krate, base_dir);
    let data = krate.analysis;
    let c0 = CrateView::blank(krate.analysis.prelude->0.crate_name@, krate.timestamp);
    let c1 = reader.with_defs(c0, data.defs@);
    let c2 = reader.with_imports(c1, known, data.imports@);
    let c3 = reader.with_refs(c2, known, data.refs@);
    lemma_defs_keep(reader, c0, data.defs@);
    lemma_imports_keep(reader, c1, known, data.imports@);
    lemma_refs_keep(reader, c2, known, data.refs@);
    lemma_relations_keep(reader, c3, known, data.relations@);
}

proof fn lemma_defs_keep(reader: ReaderView, c: CrateView, defs: Seq<raw::Def>)
    ensures
        reader.with_defs(c, defs).timestamp == c.timestamp,
        reader.with_defs(c, defs).name == c.name,
    decreases defs.len(),
{
    if defs.len() > 0 {
        lemma_defs_keep(reader, c, defs.drop_last());
    }
}

proof fn lemma_imports_keep(
    reader: ReaderView,
    c: CrateView,
    known: Option<AnalysisView>,
    imports: Seq<raw::Import>,
)
    ensures
        reader.with_imports(c, known, imports).timestamp == c.timestamp,
        reader.with_imports(c, known, imports).name == c.name,
    decreases imports.len(),
{
    if imports.len() > 0 {
        lemma_imports_keep(reader, c, known, imports.drop_last());
    }
}

proof fn lemma_refs_keep(
    reader: ReaderView,
    c: CrateView,
    known: Option<AnalysisView>,
    refs: Seq<raw::Ref>,
)
    ensures
        reader.with_refs(c, known, refs).timestamp == c.timestamp,
        reader.with_refs(c, known, refs).name == c.name,
    decreases refs.len(),
{
    if refs.len() > 0 {
        lemma_refs_keep(reader, c, known, refs.drop_last());
    }
}

proof fn lemma_relations_keep(
    reader: ReaderView,
    c: CrateView,
    known: Option<AnalysisView>,
    relations: Seq<raw::Relation>,
)
    ensures
        reader.with_relations(c, known, relations).timestamp == c.timestamp,
        reader.with_relations(c, known, relations).name == c.name,
    decreases relations.len(),
{
    if relations.len() > 0 {
        lemma_relations_keep(reader, c, known, relations.drop_last());
    }
}

/// Whether no two crates have the same number and all numbers are below the
/// number of crates.
pub open spec fn distinct_numbers(numbers: Map<Seq<char>, u32>) -> bool {
    &&& numbers.dom().finite()
    &&& forall|name: Seq<char>| #[trigger]
        numbers.contains_key(name) ==> numbers[name] < numbers.len()
    &&& forall|x: Seq<char>, y: Seq<char>|
        #![trigger numbers[x], numbers[y]]
        numbers.contains_key(x) && numbers.contains_key(y) && numbers[x] == numbers[y] ==> x == y
}

/// As long as there are numbers left, each crate gets one of its own.
pub proof fn law_numbers_stay_distinct(numbers: Map<Seq<char>, u32>, names: Seq<Seq<char>>)
    requires
        distinct_numbers(numbers),
        numbers.len() + names.len() <= u32::MAX,
    ensures
        distinct_numbers(numbered_all(numbers, names)),
        numbered_all(numbers, names).len() <= numbers.len() + names.len(),
    decreases names.len(),
{
    if names.len() > 0 {
        law_numbers_stay_distinct(numbers, names.drop_last());
        let before = numbered_all(numbers, names.drop_last());
        let name = names.last();
        let after = numbered(before, name);
        if !before.contains_key(name) {
            assert(after.dom() =~= before.dom().insert(name));
            assert(after.len() == before.len() + 1);
            assert forall|x: Seq<char>, y: Seq<char>|
                #![trigger after[x], after[y]]
                after.contains_key(x) && after.contains_key(y) && after[x] == after[y] implies x
                == y by {
                if x != name && y != name {
                    assert(before[x] == before[y]);
                } else if x != name {
                    assert(before.contains_key(x));
                } else if y != name {
                    assert(before.contains_key(y));
                }
            }
        }
    }
}

/// Two ids of a crate's data that are not missing become the same id only where
/// they are the same index of the same crate.
pub proof fn law_ids_distinct(reader: ReaderView, x: raw::CompilerId, y: raw::CompilerId)
    requires
        !reader.id(x).is_null(),
        reader.id(x) == reader.id(y),
    ensures
        x.index == y.index,
        reader.crate_map[x.krate as int] == reader.crate_map[y.krate as int],
{
}

/// A definition has the same id in the data of every crate that refers to it,
/// whatever number a crate gives to the crate of the definition.
pub proof fn law_ids_agree(
    numbers: Map<Seq<char>, u32>,
    one: raw::Crate,
    between: Seq<Seq<char>>,
    two: raw::Crate,
    base_dir: PathView,
    x: raw::CompilerId,
    y: raw::CompilerId,
)
    requires
        can_lower(numbers, one),
        can_lower(numbered_all(numbers_after(numbers, one), between), two),
        x.krate < crate_names(one.analysis.prelude->0).len(),
        y.krate < crate_names(two.analysis.prelude->0).len(),
        crate_names(one.analysis.prelude->0)[x.krate as int] == crate_names(
            two.analysis.prelude->0,
        )[y.krate as int],
        x.krate != u32::MAX,
        y.krate != u32::MAX,
        x.index == y.index,
    ensures
        reader_for(numbers, one, base_dir).id(x) == reader_for(
            numbered_all(numbers_after(numbers, one), between),
            two,
            base_dir,
        ).id(y),
{
    let ones = crate_names(one.analysis.prelude->0);
    let twos = crate_names(two.analysis.prelude->0);
    let name = ones[x.krate as int];
    let first = numbers_after(numbers, one);
    let second = numbered_all(first, between);
    lemma_numbered_has(numbers, ones, x.krate as int);
    lemma_number_kept(first, between, name);
    lemma_number_kept(second, twos, name);
}

/// Where crates have distinct numbers, ids of different definitions differ, also
/// between crates: two ids that are not missing are the same only for the same
/// index of a crate of the same name.
pub proof fn law_ids_identify(
    numbers: Map<Seq<char>, u32>,
    one: raw::Crate,
    between: Seq<Seq<char>>,
    two: raw::Crate,
    base_dir: PathView,
    x: raw::CompilerId,
    y: raw::CompilerId,
)
    requires
        distinct_numbers(numbers),
        can_lower(numbers, one),
        numbers_after(numbers, one).len() + between.len() <= u32::MAX,
        can_lower(numbered_all(numbers_after(numbers, one), between), two),
        !reader_for(numbers, one, base_dir).id(x).is_null(),
        reader_for(numbers, one, base_dir).id(x) == reader_for(
            numbered_all(numbers_after(numbers, one), between),
            two,
            base_dir,
        ).id(y),
    ensures
        x.index == y.index,
        crate_names(one.analysis.prelude->0)[x.krate as int] == crate_names(
            two.analysis.prelude->0,
        )[y.krate as int],
{
    let ones = crate_names(one.analysis.prelude->0);
    let twos = crate_names(two.analysis.prelude->0);
    let first = numbers_after(numbers, one);
    let second = numbered_all(first, between);
    let last = numbers_after(second, two);
    law_numbers_stay_distinct(numbers, ones);
    law_numbers_stay_distinct(first, between);
    law_numbers_stay_distinct(second, twos);
    lemma_numbered_has(numbers, ones, x.krate as int);
    lemma_number_kept(first, between, ones[x.krate as int]);
    lemma_number_kept(second, twos, ones[x.krate as int]);
    lemma_numbered_has(second, twos, y.krate as int);
    assert(last[ones[x.krate as int]] == last[twos[y.krate as int]]);
}

/// Loading crates keeps the numbers of crates distinct.
pub proof fn law_lower_keeps_numbers_distinct(
    h: HostView,
    krates: Seq<raw::Crate>,
    base_dir: PathView,
)
    requires
        distinct_numbers(h.numbers),
    ensures
        distinct_numbers(h.lower_all(krates, base_dir).0.numbers),
    decreases krates.len(),
{
    if krates.len() > 0 {
        let (next, result) = h.lower_one(krates[0], base_dir);
        if can_lower(h.numbers, krates[0]) {
            let names = crate_names(krates[0].analysis.prelude->0);
            law_numbers_stay_distinct(h.numbers, names);
        }
        if result is Ok {
            law_lower_keeps_numbers_distinct(next, krates.skip(1), base_dir);
        }
    }
}

/// A host that nothing was loaded into is consistent, and its numbers distinct.
pub proof fn law_blank_host_consistent(h: HostView)
    requires
        h.is_blank(),
    ensures
        h.consistent(),
        distinct_numbers(h.numbers),
{
}

/// However a host is reloaded, it stays consistent, and so do the numbers of
/// crates where the fresh hosts of the loader have distinct ones.
pub proof fn law_reload_keeps_consistent<L, F>(
    before: AnalysisHost<L>,
    after: AnalysisHost<L>,
    base_dir: &FilePath,
    blacklist: &[&str],
    read: F,
    r: AResult<()>,
) where
    L: AnalysisLoader,
    F: Fn(&L, &Vec<(FilePath, u128)>, &[&str]) -> Vec<raw::Crate>,

    requires
        before@.consistent(),
        hard_reloaded(before, after, base_dir, blacklist, read, r) || (before@.analysis is Some
            && updated(before, after, base_dir, blacklist, read, r)),
    ensures
        after@.consistent(),
        distinct_numbers(before@.numbers) && (forall|loader: &L, fresh: AnalysisHost<L>| #[trigger]
            call_ensures(L::fresh_host, (loader,), fresh) ==> distinct_numbers(fresh@.numbers))
            ==> distinct_numbers(after@.numbers),
{
    if hard_reloaded(before, after, base_dir, blacklist, read, r) {
        let (none, krates, fresh) = choose|
            none: Vec<(FilePath, u128)>,
            krates: Vec<raw::Crate>,
            fresh: AnalysisHost<L>,
        |
            {
                &&& none@.len() == 0
                &&& #[trigger] call_ensures(read, (&after.loader_spec(), &none, blacklist), krates)
                &&& #[trigger] call_ensures(L::fresh_host, (&after.loader_spec(),), fresh)
                &&& (after@, r) == before@.hard_reload(fresh@, krates@, base_dir@)
            };
        law_hard_reload_keeps_consistent(before@, fresh@, krates@, base_dir@);
        if distinct_numbers(fresh@.numbers) {
            law_lower_keeps_numbers_distinct(fresh@.emptied(), krates@, base_dir@);
        }
    } else {
        let (timestamps, krates) = choose|
            timestamps: Vec<(FilePath, u128)>,
            krates: Vec<raw::Crate>,
        |
            {
                &&& timestamps.deep_view() == before@.analysis->0.timestamps()
                &&& #[trigger] call_ensures(
                    read,
                    (&before.loader_spec(), &timestamps, blacklist),
                    krates,
                )
                &&& (after@, r) == before@.lower_all(krates@, base_dir@)
            };
        law_lower_keeps_consistent(before@, krates@, base_dir@);
        if distinct_numbers(before@.numbers) {
            law_lower_keeps_numbers_distinct(before@, krates@, base_dir@);
        }
    }
}

/// Adding the analysis of a crate that was not read from a file keeps a host
/// consistent.
pub proof fn law_import_keeps_consistent(
    before: HostView,
    after: HostView,
    analysis: raw::Analysis,
    timestamp: u128,
    base_dir: PathView,
    r: AResult<()>,
)
    requires
        before.consistent(),
        before.analysis is Some,
        imported(before, after, analysis, timestamp, base_dir, r),
    ensures
        after.consistent(),
        r is Ok ==> after.analysis->0.data_of(
            CrateIdView {
                name: analysis.prelude->0.crate_name@,
                path: PathView { text: "GOWNO"@ },
            },
        ) is Some,
{
    let krate = choose|krate: raw::Crate|
        {
            &&& krate.analysis == analysis
            &&& krate.timestamp == timestamp
            &&& krate.path@ == (PathView { text: "GOWNO"@ })
            &&& (after, r) == #[trigger] before.lower_one(krate, base_dir)
        };
    let one = seq![krate];
    law_lower_keeps_consistent(before, one, base_dir);
    assert(one[0] == krate);
    if r is Ok {
        law_lower_reads_back(before, krate, base_dir);
        let (next, result) = before.lower_one(one[0], base_dir);
        assert(one.skip(1).len() == 0);
        assert(before.lower_all(one, base_dir) == next.lower_all(one.skip(1), base_dir));
        assert(after.analysis->0.data_of(crate_id(krate)) is Some);
    }
}

/// A file that was read, and that no other crate was read from, is not read again
/// until it is newer.
pub proof fn law_read_again_only_if_newer(
    h: HostView,
    krate: raw::Crate,
    base_dir: PathView,
    dir: PathView,
    file: (Seq<char>, u128),
    blacklist: Seq<Seq<char>>,
)
    requires
        h.analysis is Some,
        h.consistent(),
        h.lower_one(krate, base_dir).1 is Ok,
        forall|i: int|
            0 <= i < h.analysis->0.crates.len() && (
            #[trigger] h.analysis->0.crates[i]).0.path.key() == krate.path@.key()
                ==> h.analysis->0.crates[i].0.same(crate_id(krate)),
        krate.path@.key() == path_in(dir, file.0).key(),
    ensures
        wanted(
            dir,
            file,
            h.lower_one(krate, base_dir).0.analysis->0.timestamps(),
            blacklist,
        ) == (file.1 > krate.timestamp && !blacklisted(file.0, blacklist)),
{
    let before = h.analysis->0;
    let after = h.lower_one(krate, base_dir).0.analysis->0;
    let id = crate_id(krate);
    let data = lowered_crate(h.numbers, h.known(), krate, base_dir);
    law_lowered_crate_consistent(h.numbers, h.known(), krate, base_dir);
    law_update_keeps_consistent(before, id, data);
    lemma_lowered_timestamp(h.numbers, h.known(), krate, base_dir);
    lemma_place_from(before.crates, id);
    let at = before.place(id);
    let times = after.timestamps();
    let path = path_in(dir, file.0);
    assert(after.crates[at].0.same(id) && after.crates[at].1 == data);
    assert(times[at].0.key() == path.key());
    assert forall|j: int|
        0 <= j < times.len() && (#[trigger] times[j]).0.key() == path.key() implies times[j].1
        == krate.timestamp by {
        if j != at {
            assert(after.crates[j] == before.crates[j]);
            assert(after.crates[j].0.same(id));
        }
    }
    lemma_recorded(times, path, krate.timestamp, at);
}

/// Where all records of a file agree, that is the time recorded for it.
proof fn lemma_recorded(times: Seq<(PathView, u128)>, path: PathView, t: u128, at: int)
    requires
        0 <= at < times.len(),
        times[at].0.key() == path.key(),
        forall|j: int|
            0 <= j < times.len() && (#[trigger] times[j]).0.key() == path.key() ==> times[j].1 == t,
    ensures
        recorded(times, path) == Some(t),
    decreases times.len(),
{
    if times.last().0.key() != path.key() {
        assert(times.drop_last()[at] == times[at]);
        lemma_recorded(times.drop_last(), path, t, at);
    }
}

/// After a reload that succeeded something is loaded.
pub proof fn law_reload_loads_something<L, F>(
    before: AnalysisHost<L>,
    after: AnalysisHost<L>,
    base_dir: &FilePath,
    blacklist: &[&str],
    read: F,
    r: AResult<()>,
) where
    L: AnalysisLoader,
    F: Fn(&L, &Vec<(FilePath, u128)>, &[&str]) -> Vec<raw::Crate>,

    requires
        r is Ok,
        hard_reloaded(before, after, base_dir, blacklist, read, r) || (before@.analysis is Some
            && updated(before, after, base_dir, blacklist, read, r)),
    ensures
        after@.analysis is Some,
{
    if hard_reloaded(before, after, base_dir, blacklist, read, r) {
        let (none, krates, fresh) = choose|
            none: Vec<(FilePath, u128)>,
            krates: Vec<raw::Crate>,
            fresh: AnalysisHost<L>,
        |
            {
                &&& none@.len() == 0
                &&& #[trigger] call_ensures(read, (&after.loader_spec(), &none, blacklist), krates)
                &&& #[trigger] call_ensures(L::fresh_host, (&after.loader_spec(),), fresh)
                &&& (after@, r) == before@.hard_reload(fresh@, krates@, base_dir@)
            };
        fresh@.emptied().lemma_lower_all(krates@, base_dir@);
    } else {
        let (timestamps, krates) = choose|
            timestamps: Vec<(FilePath, u128)>,
            krates: Vec<raw::Crate>,
        |
            {
                &&& timestamps.deep_view() == before@.analysis->0.timestamps()
                &&& #[trigger] call_ensures(
                    read,
                    (&before.loader_spec(), &timestamps, blacklist),
                    krates,
                )
                &&& (after@, r) == before@.lower_all(krates@, base_dir@)
            };
        before@.lemma_lower_all(krates@, base_dir@);
    }
}

} // verus!
