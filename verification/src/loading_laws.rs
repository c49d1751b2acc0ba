//! What a load makes known: from the data of crates to what the queries find.
use vstd::prelude::*;

use crate::analysis::{lemma_first_at, lemma_place_at, AnalysisView};
use crate::basics::{AError, AResult, CrateIdView, Id};
use crate::finding_laws::{
    law_children_of_first_crate, law_def_of_first_crate, law_glob_of_first_crate,
    law_id_of_first_crate, law_ids_crate_by_crate, law_impls_crate_by_crate,
    law_outline_of_first_crate, law_references, law_refs_of_first_crate, list_of,
};
use crate::host::{hard_reloaded, imported, then_imported, updated, AnalysisHost, HostView};
use crate::laws::{law_lowered_crate_consistent, lemma_place_from, listed};
use crate::loader::AnalysisLoader;
use crate::lowering::{can_lower, crate_id, lowered_crate, numbers_after, reader_for, ReaderView};
use crate::lowering_laws::{
    counts, glob_counts, impl_ends, import_uses, is_known, is_lowered, last_there, law_children_lowered,
    law_definitions_listed, law_definitions_lowered, law_globs_lowered, law_impls_lowered,
    law_references_lowered, law_spans_lowered, makes_child, proper, span_key, uses, uses_of,
    zero_based,
};
use crate::path::{FilePath, PathView};
use crate::per_crate::{lookup, CrateView, DefView};
use crate::raw;

verus! {

/// A project without crates knows nothing, and its addresses are those of the nightly
/// documentation and of the compiler's repository.
pub proof fn law_blank_project()
    ensures
        AnalysisView::blank().crates.len() == 0,
        AnalysisView::blank().doc_url_base == "https://doc.rust-lang.org/nightly"@,
        AnalysisView::blank().src_url_base == "https://github.com/rust-lang/rust/blob/master/src"@,
{
}

/// A query gives what there is to answer where the lock is sound and something is
/// loaded, and an error in every other case: that of the lock where it is poisoned.
pub proof fn law_query<T>(h: HostView, ask: spec_fn(AnalysisView) -> Option<T>)
    ensures
        h.analysis_poisoned ==> h.query(ask) == Err::<T, AError>(AError::MutexPoison),
        !h.analysis_poisoned && h.analysis is None ==> h.query(ask) == Err::<T, AError>(
            AError::Unclassified,
        ),
        !h.analysis_poisoned && h.analysis is Some && ask(h.analysis->0) is None ==> h.query(ask)
            == Err::<T, AError>(AError::Unclassified),
        !h.analysis_poisoned && h.analysis is Some && ask(h.analysis->0) is Some ==> h.query(ask)
            == Ok::<T, AError>(ask(h.analysis->0)->0),
{
}

/// Recording a crate that is there puts its data in its place; one that is not comes
/// behind the others. Every other crate stays in its place with its data, and the
/// addresses on the web stay.
pub proof fn law_update_in_place(a: AnalysisView, id: CrateIdView, data: CrateView, i: int)
    ensures
        (forall|j: int| 0 <= j < a.crates.len() ==> !(#[trigger] a.crates[j]).0.same(id)) ==> a.update(
            id,
            data,
        ).crates == a.crates.push((id, data)),
        0 <= i < a.crates.len() && a.crates[i].0.same(id) && (forall|j: int|
            0 <= j < i ==> !(#[trigger] a.crates[j]).0.same(id)) ==> a.update(id, data).crates
            == a.crates.update(i, (a.crates[i].0, data)),
        a.update(id, data).doc_url_base == a.doc_url_base,
        a.update(id, data).src_url_base == a.src_url_base,
{
    lemma_place_from(a.crates, id);
    if 0 <= i < a.crates.len() && a.crates[i].0.same(id) && (forall|j: int|
        0 <= j < i ==> !(#[trigger] a.crates[j]).0.same(id)) {
        lemma_place_at(a.crates, id, i);
    }
}

/// Two ids are of the same crate exactly where the names are equal and the paths have
/// the same root and the same parts.
pub proof fn law_same_crate(x: CrateIdView, y: CrateIdView)
    ensures
        x.same(y) <==> x.name == y.name && x.path.key().root == y.path.key().root
            && x.path.key().parts == y.path.key().parts,
{
    if x.path.key().root == y.path.key().root && x.path.key().parts == y.path.key().parts {
        assert(x.path.key() =~= y.path.key());
    }
}

/// The times that the next reload goes by are those of the data of the crates, crate by
/// crate.
pub proof fn law_times_of_crates(a: AnalysisView)
    ensures
        a.timestamps().len() == a.crates.len(),
        forall|i: int|
            0 <= i < a.crates.len() ==> (#[trigger] a.timestamps()[i]).0 == a.crates[i].0.path
                && a.timestamps()[i].1 == a.crates[i].1.timestamp,
{
}

/// Loading one crate: a poisoned lock and data that cannot be lowered are errors, and
/// nothing is loaded; else the crate is recorded as it was lowered. Only a crate that
/// can be lowered gets numbers.
pub proof fn law_load_one(h: HostView, krate: raw::Crate, base_dir: PathView)
    ensures
        h.numbers_poisoned ==> h.lower_one(krate, base_dir) == (
            h,
            Err::<(), AError>(AError::MutexPoison),
        ),
        !h.numbers_poisoned && !can_lower(h.numbers, krate) ==> h.lower_one(krate, base_dir) == (
            h,
            Err::<(), AError>(AError::Unclassified),
        ),
        !h.numbers_poisoned && can_lower(h.numbers, krate) ==> {
            let (after, r) = h.lower_one(krate, base_dir);
            &&& after.numbers == numbers_after(h.numbers, krate)
            &&& !after.numbers_poisoned
            &&& after.analysis_poisoned == h.analysis_poisoned
            &&& h.analysis_poisoned ==> r == Err::<(), AError>(AError::MutexPoison)
                && after.analysis == h.analysis
            &&& !h.analysis_poisoned && h.analysis is Some ==> r is Ok && after.analysis == Some(
                h.analysis->0.update(
                    CrateIdView {
                        name: krate.analysis.prelude->0.crate_name@,
                        path: krate.path@,
                    },
                    lowered_crate(h.numbers, h.analysis, krate, base_dir),
                ),
            )
        },
{
}

/// Loading crates is loading one after the other, up to the first that fails.
pub proof fn law_load_in_order(
    h: HostView,
    krates: Seq<raw::Crate>,
    last: raw::Crate,
    base_dir: PathView,
)
    ensures
        h.lower_all(Seq::empty(), base_dir) == (h, Ok::<(), AError>(())),
        h.lower_all(krates, base_dir).1 is Err ==> h.lower_all(krates.push(last), base_dir)
            == h.lower_all(krates, base_dir),
        h.lower_all(krates, base_dir).1 is Ok ==> h.lower_all(krates.push(last), base_dir)
            == h.lower_all(krates, base_dir).0.lower_one(last, base_dir),
    decreases krates.len(),
{
    let longer = krates.push(last);
    if krates.len() == 0 {
        assert(longer[0] == last);
        assert(longer.skip(1) =~= Seq::empty());
        let (next, r) = h.lower_one(last, base_dir);
        assert(next.lower_all(longer.skip(1), base_dir) == (next, Ok::<(), AError>(())));
    } else {
        let (next, r) = h.lower_one(krates[0], base_dir);
        law_load_in_order(next, krates.skip(1), last, base_dir);
        assert(longer[0] == krates[0]);
        assert(longer.skip(1) =~= krates.skip(1).push(last));
    }
}

/// Where all crates were lowered and no lock is poisoned, a hard reload takes over what
/// they made of a project without crates, and the numbers of the fresh host.
pub proof fn law_hard_reload_takes_over(
    h: HostView,
    fresh: HostView,
    krates: Seq<raw::Crate>,
    base_dir: PathView,
)
    requires
        !h.analysis_poisoned,
        !h.numbers_poisoned,
        !fresh.numbers_poisoned,
    ensures
        ({
            let empty = HostView {
                analysis: Some(AnalysisView::blank()),
                analysis_poisoned: false,
                ..fresh
            };
            let (filled, lowered) = empty.lower_all(krates, base_dir);
            let (after, r) = h.hard_reload(fresh, krates, base_dir);
            &&& lowered is Ok ==> r is Ok
            &&& lowered matches Err(e) ==> r == Err::<(), AError>(e)
            &&& !after.analysis_poisoned
            &&& !after.numbers_poisoned
            &&& lowered is Ok ==> after.analysis == filled.analysis && after.numbers
                == filled.numbers
            &&& lowered is Err ==> after.analysis is None && after.numbers == h.numbers
        }),
{
    fresh.emptied().lemma_lower_all(krates, base_dir);
}

/// A reload that reads only what is newer hands the reader the loader, the list and the
/// time of the data of each crate, and loads what comes back, crate by crate.
pub proof fn law_update_reads_newer<L, F>(
    before: AnalysisHost<L>,
    after: AnalysisHost<L>,
    base_dir: &FilePath,
    blacklist: &[&str],
    read: F,
    r: AResult<()>,
) -> (given: (Vec<(FilePath, u128)>, Vec<raw::Crate>)) where
    L: AnalysisLoader,
    F: Fn(&L, &Vec<(FilePath, u128)>, &[&str]) -> Vec<raw::Crate>,

    requires
        updated(before, after, base_dir, blacklist, read, r),
    ensures
        given.0@.len() == before@.analysis->0.crates.len(),
        forall|i: int|
            0 <= i < given.0@.len() ==> (#[trigger] given.0@[i]).0@
                == before@.analysis->0.crates[i].0.path && given.0@[i].1
                == before@.analysis->0.crates[i].1.timestamp,
        call_ensures(read, (&before.loader_spec(), &given.0, blacklist), given.1),
        after.loader_spec() == before.loader_spec(),
        after@ == before@.lower_all(given.1@, base_dir@).0,
        r == before@.lower_all(given.1@, base_dir@).1,
{
    let (timestamps, krates) = choose|timestamps: Vec<(FilePath, u128)>, krates: Vec<raw::Crate>|
        {
            &&& timestamps.deep_view() == before@.analysis->0.timestamps()
            &&& #[trigger] call_ensures(
                read,
                (&before.loader_spec(), &timestamps, blacklist),
                krates,
            )
            &&& (after@, r) == before@.lower_all(krates@, base_dir@)
        };
    let a = before@.analysis->0;
    law_times_of_crates(a);
    assert(timestamps.deep_view().len() == timestamps@.len());
    assert forall|i: int| 0 <= i < timestamps@.len() implies (#[trigger] timestamps@[i]).0@
        == before@.analysis->0.crates[i].0.path && timestamps@[i].1
        == before@.analysis->0.crates[i].1.timestamp by {
        assert(timestamps.deep_view()[i] == (timestamps@[i].0@, timestamps@[i].1));
        assert(a.timestamps()[i].0 == a.crates[i].0.path);
    }
    (timestamps, krates)
}

/// A hard reload hands the reader the loader as it is afterwards, the list and no times,
/// lowers what comes back on a fresh host of that loader, and takes that over.
pub proof fn law_hard_reload_reads_all<L, F>(
    before: AnalysisHost<L>,
    after: AnalysisHost<L>,
    base_dir: &FilePath,
    blacklist: &[&str],
    read: F,
    r: AResult<()>,
) -> (given: (Vec<(FilePath, u128)>, Vec<raw::Crate>, AnalysisHost<L>)) where
    L: AnalysisLoader,
    F: Fn(&L, &Vec<(FilePath, u128)>, &[&str]) -> Vec<raw::Crate>,

    requires
        hard_reloaded(before, after, base_dir, blacklist, read, r),
    ensures
        given.0@ == Seq::<(FilePath, u128)>::empty(),
        call_ensures(read, (&after.loader_spec(), &given.0, blacklist), given.1),
        call_ensures(L::fresh_host, (&after.loader_spec(),), given.2),
        after@ == before@.hard_reload(given.2@, given.1@, base_dir@).0,
        r == before@.hard_reload(given.2@, given.1@, base_dir@).1,
{
    let (none, krates, fresh) = choose|
        none: Vec<(FilePath, u128)>,
        krates: Vec<raw::Crate>,
        fresh: AnalysisHost<L>,
    |
        {
            &&& none@.len() == 0
            &&& #[trigger] call_ensures(read, (&after.loader_spec(), &none, blacklist), krates)
            &&& #[trigger] call_ensures(L::fresh_host, (&after.loader_spec(),), fresh)
            &&& (after@, r) == before@.hard_reload(fresh@, krates@, base_dir@)
        };
    assert(none@ =~= Seq::empty());
    (none, krates, fresh)
}

/// After a reload that succeeded the analysis that was handed over is loaded as a crate
/// of its own, with its data and the time it was given; one that failed is followed by
/// nothing.
pub proof fn law_handed_over(
    reloaded: HostView,
    first: AResult<()>,
    after: HostView,
    analysis: raw::Analysis,
    base_dir: PathView,
    r: AResult<()>,
) -> (krate: raw::Crate)
    requires
        then_imported(reloaded, first, after, analysis, base_dir, r),
    ensures
        first matches Err(e) ==> r == Err::<(), AError>(e) && after == reloaded,
        first is Ok ==> {
            &&& krate.analysis == analysis
            &&& krate.path@.text == "GOWNO"@
            &&& after == reloaded.lower_one(krate, base_dir).0
            &&& r == reloaded.lower_one(krate, base_dir).1
        },
{
    if first is Ok {
        let timestamp = choose|timestamp: u128| #[trigger]
            imported(reloaded, after, analysis, timestamp, base_dir, r);
        choose|krate: raw::Crate|
            {
                &&& krate.analysis == analysis
                &&& krate.timestamp == timestamp
                &&& krate.path@ == (PathView { text: "GOWNO"@ })
                &&& (after, r) == #[trigger] reloaded.lower_one(krate, base_dir)
            }
    } else {
        arbitrary()
    }
}

/// Whether a crate was loaded alone, into a project without crates.
pub open spec fn loaded_alone(
    h: HostView,
    krate: raw::Crate,
    base_dir: PathView,
    a: AnalysisView,
) -> bool {
    &&& !h.analysis_poisoned
    &&& h.analysis is Some
    &&& h.analysis->0.crates.len() == 0
    &&& h.lower_one(krate, base_dir).1 is Ok
    &&& h.lower_one(krate, base_dir).0.analysis == Some(a)
}

/// A crate that was loaded alone is all that is loaded.
pub proof fn law_loaded_alone(h: HostView, krate: raw::Crate, base_dir: PathView, a: AnalysisView)
    requires
        loaded_alone(h, krate, base_dir, a),
    ensures
        a.crates == seq![(crate_id(krate), lowered_crate(h.numbers, h.analysis, krate, base_dir))],
        a.consistent(),
        forall|id: Id| (#[trigger] h.analysis->0.def(id)) is None,
{
    let none = h.analysis->0;
    law_load_one(h, krate, base_dir);
    law_update_in_place(
        none,
        crate_id(krate),
        lowered_crate(h.numbers, h.analysis, krate, base_dir),
        0,
    );
    assert(a.crates =~= seq![
        (crate_id(krate), lowered_crate(h.numbers, h.analysis, krate, base_dir)),
    ]);
    law_lowered_crate_consistent(h.numbers, h.analysis, krate, base_dir);
    assert forall|id: Id| (#[trigger] none.def(id)) is None by {
        law_def_of_first_crate(none, id, 0);
    }
}

/// One list alone, flattened, is that list.
proof fn lemma_flat_one<T>(lists: Seq<Seq<T>>)
    requires
        lists.len() == 1,
    ensures
        lists.flatten() == lists[0],
{
    let none: Seq<Seq<T>> = Seq::empty();
    assert(lists =~= none.push(lists[0]));
    none.lemma_flatten_push(lists[0]);
    assert(none.flatten() =~= Seq::empty());
    assert(lists.flatten() =~= lists[0]);
}

/// What is used is among the uses.
proof fn lemma_use_listed(
    reader: ReaderView,
    list: Seq<(raw::CompilerId, raw::SpanData)>,
    id: Id,
    k: int,
)
    requires
        0 <= k < list.len(),
        proper(list[k].1),
        reader.id(list[k].0) == id,
    ensures
        uses_of(reader, list, id).contains(zero_based(list[k].1, reader.base_dir)),
{
    let pred = |u: (raw::CompilerId, raw::SpanData)| proper(u.1) && reader.id(u.0) == id;
    list.lemma_filter_contains(pred, k);
    let kept = list.filter(pred);
    let i = kept.index_of(list[k]);
    assert(uses_of(reader, list, id)[i] == zero_based(list[k].1, reader.base_dir));
}

/// Every definition of a crate that counts is found once the crate is loaded: by its
/// id, by its name and in the outline of its file, with its name, kind, span, value
/// and documentation; and at its span, unless a later one has the same.
pub proof fn law_definition_is_found(
    h: HostView,
    krate: raw::Crate,
    base_dir: PathView,
    a: AnalysisView,
    k: int,
)
    requires
        loaded_alone(h, krate, base_dir, a),
        counts(reader_for(h.numbers, krate, base_dir), krate.analysis.defs@, k),
    ensures
        ({
            let reader = reader_for(h.numbers, krate, base_dir);
            let def = krate.analysis.defs@[k];
            let id = reader.id(def.id);
            let span = zero_based(def.span, base_dir);
            &&& a.def(id) matches Some(d) && is_lowered(reader, def, d)
            &&& a.ids_named(def.name@).contains(id)
            &&& a.def_and_refs(id) matches Some(spans) && spans.len() > 0 && spans[0] == span
            &&& a.file_defs(span.file) matches Some(ids) && ids.contains(id)
            &&& last_there(reader, krate.analysis.defs@, k) ==> a.id_at(span) == Some(id)
                && a.goto_def(span) == Some(span)
        }),
{
    let reader = reader_for(h.numbers, krate, base_dir);
    let defs = krate.analysis.defs@;
    let def = defs[k];
    let id = reader.id(def.id);
    let span = zero_based(def.span, base_dir);
    let c = lowered_crate(h.numbers, h.analysis, krate, base_dir);
    law_loaded_alone(h, krate, base_dir, a);
    assert(a.crates[0].1 == c);
    law_definitions_lowered(h.numbers, h.analysis, krate, base_dir);
    law_definitions_listed(h.numbers, h.analysis, krate, base_dir);
    law_spans_lowered(h.numbers, h.analysis, krate, base_dir, span.key(), k);
    law_def_of_first_crate(a, id, 0);
    law_ids_crate_by_crate(a, def.name@);
    lemma_flat_one(
        a.crates.map_values(|c: (CrateIdView, CrateView)| list_of(c.1.def_names, def.name@)),
    );
    assert(listed(c.def_names, def.name@, id));
    assert(listed(c.defs_per_file, span.file.key(), id));
    law_references(a, id, span);
    law_outline_of_first_crate(a, span.file, 0);
    lemma_first_at(
        a.crates,
        |c: CrateView| lookup(c.defs_per_file, span.file.key()),
        0,
    );
    law_id_of_first_crate(a, span, 0);
    if last_there(reader, defs, k) {
        assert(span_key(reader, defs[k]) == span.key());
    }
}

/// Every reference in a crate's data with a proper span to a definition of the crate is
/// among those that are found for the definition once the crate is loaded.
pub proof fn law_reference_is_found(
    h: HostView,
    krate: raw::Crate,
    base_dir: PathView,
    a: AnalysisView,
    k: int,
    m: int,
)
    requires
        loaded_alone(h, krate, base_dir, a),
        counts(reader_for(h.numbers, krate, base_dir), krate.analysis.defs@, m),
        0 <= k < krate.analysis.refs@.len(),
        proper(krate.analysis.refs@[k].span),
        reader_for(h.numbers, krate, base_dir).id(krate.analysis.refs@[k].ref_id) == reader_for(
            h.numbers,
            krate,
            base_dir,
        ).id(krate.analysis.defs@[m].id),
    ensures
        ({
            let reader = reader_for(h.numbers, krate, base_dir);
            let id = reader.id(krate.analysis.defs@[m].id);
            let span = zero_based(krate.analysis.refs@[k].span, base_dir);
            &&& a.refs(id) matches Some(spans) && spans.contains(span)
            &&& a.refs(id) == Some(uses_of(reader, uses(krate.analysis), id))
            &&& a.def_and_refs(id) == Some(
                seq![zero_based(krate.analysis.defs@[m].span, base_dir)] + uses_of(
                    reader,
                    uses(krate.analysis),
                    id,
                ),
            )
        }),
{
    let reader = reader_for(h.numbers, krate, base_dir);
    let id = reader.id(krate.analysis.defs@[m].id);
    let c = lowered_crate(h.numbers, h.analysis, krate, base_dir);
    law_loaded_alone(h, krate, base_dir, a);
    assert(a.crates[0].1 == c);
    law_definitions_lowered(h.numbers, h.analysis, krate, base_dir);
    law_references_lowered(h.numbers, h.analysis, krate, base_dir, id);
    let list = uses(krate.analysis);
    let at = import_uses(krate.analysis.imports@).len() + k;
    assert(list[at] == (krate.analysis.refs@[k].ref_id, krate.analysis.refs@[k].span));
    lemma_use_listed(reader, list, id, at);
    assert(is_known(c, h.analysis, id));
    assert(c.ref_spans.contains_key(id));
    law_refs_of_first_crate(a, id, 0);
    law_definition_is_found(h, krate, base_dir, a, m);
    law_references(a, id, zero_based(krate.analysis.refs@[k].span, base_dir));
}

/// Every child that a definition of a crate names, and every one that names it as its
/// parent, is among its children once the crate is loaded, if the crate defines it.
pub proof fn law_child_is_found(
    h: HostView,
    krate: raw::Crate,
    base_dir: PathView,
    a: AnalysisView,
    k: int,
    m: int,
    parent: Id,
)
    requires
        loaded_alone(h, krate, base_dir, a),
        counts(reader_for(h.numbers, krate, base_dir), krate.analysis.defs@, k),
        counts(reader_for(h.numbers, krate, base_dir), krate.analysis.defs@, m),
        makes_child(
            reader_for(h.numbers, krate, base_dir),
            krate.analysis.defs@[k],
            parent,
            reader_for(h.numbers, krate, base_dir).id(krate.analysis.defs@[m].id),
        ),
    ensures
        ({
            let reader = reader_for(h.numbers, krate, base_dir);
            let def = krate.analysis.defs@[m];
            exists|d: DefView|
                is_lowered(reader, def, d) && #[trigger] a.children(parent).contains(
                    (reader.id(def.id), d),
                )
        }),
{
    let reader = reader_for(h.numbers, krate, base_dir);
    let child = reader.id(krate.analysis.defs@[m].id);
    let c = lowered_crate(h.numbers, h.analysis, krate, base_dir);
    law_loaded_alone(h, krate, base_dir, a);
    assert(a.crates[0].1 == c);
    law_definitions_lowered(h.numbers, h.analysis, krate, base_dir);
    law_children_lowered(h.numbers, h.analysis, krate, base_dir);
    assert(listed(c.children, parent, child));
    law_children_of_first_crate(a, parent, 0);
    let ids = c.children[parent];
    let keep = |x: Id| a.crates[0].1.defs.contains_key(x);
    ids.lemma_filter_contains(keep, ids.index_of(child));
    let kept = ids.filter(keep);
    let i = kept.index_of(child);
    assert(a.children(parent)[i] == (child, c.defs[child]));
    assert(a.children(parent).contains((child, c.defs[child])));
}

/// Every implementation in a crate's data with a proper span is found for each of its
/// ends that the crate defines, once the crate is loaded.
pub proof fn law_implementation_is_found(
    h: HostView,
    krate: raw::Crate,
    base_dir: PathView,
    a: AnalysisView,
    k: int,
    m: int,
)
    requires
        loaded_alone(h, krate, base_dir, a),
        counts(reader_for(h.numbers, krate, base_dir), krate.analysis.defs@, m),
        0 <= k < krate.analysis.relations@.len(),
        krate.analysis.relations@[k].kind == raw::RelationKind::Impl,
        proper(krate.analysis.relations@[k].span),
        ({
            let reader = reader_for(h.numbers, krate, base_dir);
            let relation = krate.analysis.relations@[k];
            let id = reader.id(krate.analysis.defs@[m].id);
            reader.id(relation.from) == id || reader.id(relation.to) == id
        }),
    ensures
        ({
            let reader = reader_for(h.numbers, krate, base_dir);
            let id = reader.id(krate.analysis.defs@[m].id);
            &&& a.impls(id).contains(zero_based(krate.analysis.relations@[k].span, base_dir))
            &&& a.impls(id) == uses_of(reader, impl_ends(krate.analysis.relations@), id)
        }),
{
    let reader = reader_for(h.numbers, krate, base_dir);
    let relations = krate.analysis.relations@;
    let relation = relations[k];
    let id = reader.id(krate.analysis.defs@[m].id);
    let c = lowered_crate(h.numbers, h.analysis, krate, base_dir);
    law_loaded_alone(h, krate, base_dir, a);
    assert(a.crates[0].1 == c);
    law_definitions_lowered(h.numbers, h.analysis, krate, base_dir);
    law_impls_lowered(h.numbers, h.analysis, krate, base_dir, id);
    law_impls_crate_by_crate(a, id);
    lemma_flat_one(a.crates.map_values(|c: (CrateIdView, CrateView)| list_of(c.1.impls, id)));
    assert(is_known(c, h.analysis, id));
    let ends = impl_ends(relations);
    let end = if reader.id(relation.from) == id {
        (relation.from, relation.span)
    } else {
        (relation.to, relation.span)
    };
    lemma_end_there(relations, k, end);
    lemma_use_listed(reader, ends, id, ends.index_of(end));
}

/// Both ends of an implementation are among the ends.
proof fn lemma_end_there(
    relations: Seq<raw::Relation>,
    k: int,
    end: (raw::CompilerId, raw::SpanData),
)
    requires
        0 <= k < relations.len(),
        relations[k].kind == raw::RelationKind::Impl,
        end == (relations[k].from, relations[k].span) || end == (
            relations[k].to,
            relations[k].span,
        ),
    ensures
        impl_ends(relations).contains(end),
    decreases relations.len(),
{
    reveal(Seq::filter);
    let both = |r: raw::Relation| seq![(r.from, r.span), (r.to, r.span)];
    let is_impl = |r: raw::Relation| r.kind == raw::RelationKind::Impl;
    let before = relations.drop_last();
    let last = relations.last();
    let lists = before.filter(is_impl).map_values(both);
    let ends = impl_ends(relations);
    if is_impl(last) {
        assert(relations.filter(is_impl).map_values(both) =~= lists.push(both(last)));
        lists.lemma_flatten_push(both(last));
        assert(ends =~= impl_ends(before) + both(last));
    } else {
        assert(relations.filter(is_impl) =~= before.filter(is_impl));
    }
    if k < relations.len() - 1 {
        lemma_end_there(before, k, end);
        let i = impl_ends(before).index_of(end);
        assert(ends[i] == end);
    } else {
        let n = impl_ends(before).len() as int;
        assert(ends[n] == (last.from, last.span));
        assert(ends[n + 1] == (last.to, last.span));
    }
}

/// The value of a glob import that counts is found at its span once the crate is loaded,
/// unless a later one there counts too.
pub proof fn law_glob_is_found(
    h: HostView,
    krate: raw::Crate,
    base_dir: PathView,
    a: AnalysisView,
    k: int,
)
    requires
        loaded_alone(h, krate, base_dir, a),
        0 <= k < krate.analysis.imports@.len(),
        glob_counts(krate.analysis.imports@[k]),
        forall|j: int|
            k < j < krate.analysis.imports@.len() && glob_counts(
                #[trigger] krate.analysis.imports@[j],
            ) ==> zero_based(krate.analysis.imports@[j].span, base_dir).key() != zero_based(
                krate.analysis.imports@[k].span,
                base_dir,
            ).key(),
    ensures
        a.glob(zero_based(krate.analysis.imports@[k].span, base_dir)) == Some(
            krate.analysis.imports@[k].value@,
        ),
{
    law_loaded_alone(h, krate, base_dir, a);
    law_globs_lowered(h.numbers, h.analysis, krate, base_dir);
    let span = zero_based(krate.analysis.imports@[k].span, base_dir);
    assert(a.crates[0].1.globs.contains_key(span.key()));
    law_glob_of_first_crate(a, span, 0);
}

} // verus!
