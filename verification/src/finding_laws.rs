//! What each query finds, in terms of what the crates of a project hold. Where one
//! crate answers for all, it is the first that has an answer.
use vstd::prelude::*;

use crate::analysis::{all, lemma_first_from, or_empty, AnalysisView};
use crate::basics::{CrateIdView, Id};
use crate::laws::listed;
use crate::path::PathView;
use crate::per_crate::{lookup, CrateView, DefView};
use crate::query_laws::law_search_by_id;
use crate::span::SpanView;

verus! {

/// What a list of a map holds; nothing where there is no list.
pub open spec fn list_of<K, V>(m: Map<K, Seq<V>>, k: K) -> Seq<V> {
    if m.contains_key(k) {
        m[k]
    } else {
        Seq::empty()
    }
}

/// A definition is found as the first crate has it that defines it, and is not found
/// only where no crate defines it.
pub proof fn law_def_of_first_crate(a: AnalysisView, id: Id, i: int)
    ensures
        0 <= i < a.crates.len() && a.crates[i].1.defs.contains_key(id) && (forall|j: int|
            0 <= j < i ==> !(#[trigger] a.crates[j]).1.defs.contains_key(id)) ==> a.def(id) == Some(
            a.crates[i].1.defs[id],
        ),
        a.def(id) is None <==> forall|j: int|
            0 <= j < a.crates.len() ==> !(#[trigger] a.crates[j]).1.defs.contains_key(id),
{
    let ask = |c: CrateView| lookup(c.defs, id);
    let at = lemma_first_from(a.crates, ask);
    assert forall|j: int| 0 <= j < a.crates.len() implies (ask((#[trigger] a.crates[j]).1) is Some
        <==> a.crates[j].1.defs.contains_key(id)) by {}
    if at < a.crates.len() {
        assert(a.crates[at].1.defs.contains_key(id));
    }
}

/// The id at a span is that of the first crate that has the span, whatever way the
/// path of its file is written, and is not found only where no crate has the span.
pub proof fn law_id_of_first_crate(a: AnalysisView, span: SpanView, i: int)
    ensures
        0 <= i < a.crates.len() && a.crates[i].1.def_id_for_span.contains_key(span.key()) && (forall|
            j: int,
        |
            0 <= j < i ==> !(#[trigger] a.crates[j]).1.def_id_for_span.contains_key(span.key()))
            ==> a.id_at(span) == Some(a.crates[i].1.def_id_for_span[span.key()]),
        a.id_at(span) is None <==> forall|j: int|
            0 <= j < a.crates.len() ==> !(#[trigger] a.crates[j]).1.def_id_for_span.contains_key(
                span.key(),
            ),
{
    let ask = |c: CrateView| lookup(c.def_id_for_span, span.key());
    let at = lemma_first_from(a.crates, ask);
    assert forall|j: int| 0 <= j < a.crates.len() implies (ask((#[trigger] a.crates[j]).1) is Some
        <==> a.crates[j].1.def_id_for_span.contains_key(span.key())) by {}
    if at < a.crates.len() {
        assert(a.crates[at].1.def_id_for_span.contains_key(span.key()));
    }
}

/// Whether a crate has a span and defines what the span leads to.
pub open spec fn leads_home(c: CrateView, span: SpanView) -> bool {
    c.def_id_for_span.contains_key(span.key()) && c.defs.contains_key(c.def_id_for_span[span.key()])
}

/// The id at a span in its own crate is that of the first crate that has the span
/// and defines what it leads to.
pub proof fn law_local_id_of_first_crate(a: AnalysisView, span: SpanView, i: int)
    ensures
        0 <= i < a.crates.len() && leads_home(a.crates[i].1, span) && (forall|j: int|
            0 <= j < i ==> !leads_home((#[trigger] a.crates[j]).1, span)) ==> a.local_id_at(span)
            == Some(a.crates[i].1.def_id_for_span[span.key()]),
        a.local_id_at(span) is None <==> forall|j: int|
            0 <= j < a.crates.len() ==> !leads_home((#[trigger] a.crates[j]).1, span),
{
    let ask = |c: CrateView| c.local_id_at(span);
    let at = lemma_first_from(a.crates, ask);
    assert forall|j: int| 0 <= j < a.crates.len() implies (ask((#[trigger] a.crates[j]).1) is Some
        <==> leads_home(a.crates[j].1, span)) by {}
    if at < a.crates.len() {
        assert(leads_home(a.crates[at].1, span));
    }
}

/// The references to a definition are those that the first crate lists that lists
/// any, and there are none only where no crate lists any.
pub proof fn law_refs_of_first_crate(a: AnalysisView, id: Id, i: int)
    ensures
        0 <= i < a.crates.len() && a.crates[i].1.ref_spans.contains_key(id) && (forall|j: int|
            0 <= j < i ==> !(#[trigger] a.crates[j]).1.ref_spans.contains_key(id)) ==> a.refs(id)
            == Some(a.crates[i].1.ref_spans[id]),
        a.refs(id) is None <==> forall|j: int|
            0 <= j < a.crates.len() ==> !(#[trigger] a.crates[j]).1.ref_spans.contains_key(id),
{
    let ask = |c: CrateView| lookup(c.ref_spans, id);
    let at = lemma_first_from(a.crates, ask);
    assert forall|j: int| 0 <= j < a.crates.len() implies (ask((#[trigger] a.crates[j]).1) is Some
        <==> a.crates[j].1.ref_spans.contains_key(id)) by {}
    if at < a.crates.len() {
        assert(a.crates[at].1.ref_spans.contains_key(id));
    }
}

/// The value of a glob import is that of the first crate that has one at the span.
pub proof fn law_glob_of_first_crate(a: AnalysisView, span: SpanView, i: int)
    ensures
        0 <= i < a.crates.len() && a.crates[i].1.globs.contains_key(span.key()) && (forall|j: int|
            0 <= j < i ==> !(#[trigger] a.crates[j]).1.globs.contains_key(span.key())) ==> a.glob(
            span,
        ) == Some(a.crates[i].1.globs[span.key()]),
        a.glob(span) is None <==> forall|j: int|
            0 <= j < a.crates.len() ==> !(#[trigger] a.crates[j]).1.globs.contains_key(span.key()),
{
    let ask = |c: CrateView| lookup(c.globs, span.key());
    let at = lemma_first_from(a.crates, ask);
    assert forall|j: int| 0 <= j < a.crates.len() implies (ask((#[trigger] a.crates[j]).1) is Some
        <==> a.crates[j].1.globs.contains_key(span.key())) by {}
    if at < a.crates.len() {
        assert(a.crates[at].1.globs.contains_key(span.key()));
    }
}

/// The outline of a file has one entry for each definition that the first crate
/// lists that lists any for the file, in that order: the id, and the name, the kind
/// and the span of its definition.
pub proof fn law_outline_of_first_crate(a: AnalysisView, file: PathView, i: int)
    ensures
        0 <= i < a.crates.len() && a.crates[i].1.defs_per_file.contains_key(file.key()) && (forall|
            j: int,
        |
            0 <= j < i ==> !(#[trigger] a.crates[j]).1.defs_per_file.contains_key(file.key())) ==> {
            let ids = a.crates[i].1.defs_per_file[file.key()];
            &&& a.symbols(file) is Some
            &&& a.symbols(file)->0.len() == ids.len()
            &&& forall|k: int|
                0 <= k < ids.len() ==> {
                    let symbol = #[trigger] a.symbols(file)->0[k];
                    &&& symbol.id == ids[k]
                    &&& a.def(ids[k]) matches Some(d) ==> symbol.name == d.name && symbol.kind
                        == d.kind && symbol.span == d.span
                }
        },
        a.symbols(file) is None <==> forall|j: int|
            0 <= j < a.crates.len() ==> !(#[trigger] a.crates[j]).1.defs_per_file.contains_key(
                file.key(),
            ),
{
    let ask = |c: CrateView| lookup(c.defs_per_file, file.key());
    let at = lemma_first_from(a.crates, ask);
    assert forall|j: int| 0 <= j < a.crates.len() implies (ask((#[trigger] a.crates[j]).1) is Some
        <==> a.crates[j].1.defs_per_file.contains_key(file.key())) by {}
    if at < a.crates.len() {
        assert(a.crates[at].1.defs_per_file.contains_key(file.key()));
    }
}

/// The children of a definition are those that the first crate lists under it that
/// lists any, in that order, without those that the crate does not define.
pub proof fn law_children_of_first_crate(a: AnalysisView, id: Id, i: int)
    ensures
        0 <= i < a.crates.len() && a.crates[i].1.children.contains_key(id) && (forall|j: int|
            0 <= j < i ==> !(#[trigger] a.crates[j]).1.children.contains_key(id)) ==> a.children(id)
            == a.crates[i].1.children[id].filter(
            |child: Id| a.crates[i].1.defs.contains_key(child),
        ).map_values(|child: Id| (child, a.crates[i].1.defs[child])),
        (forall|j: int|
            0 <= j < a.crates.len() ==> !(#[trigger] a.crates[j]).1.children.contains_key(id))
            ==> a.children(id).len() == 0,
{
    let ask = |c: CrateView|
        match lookup(c.children, id) {
            Some(ids) => Some(c.defined(ids)),
            None => None,
        };
    let at = lemma_first_from(a.crates, ask);
    assert forall|j: int| 0 <= j < a.crates.len() implies (ask((#[trigger] a.crates[j]).1) is Some
        <==> a.crates[j].1.children.contains_key(id)) by {}
    if at < a.crates.len() {
        assert(a.crates[at].1.children.contains_key(id));
        lemma_defined_filter(a.crates[at].1, a.crates[at].1.children[id]);
    }
}

/// The definitions among some ids, in order.
proof fn lemma_defined_filter(c: CrateView, ids: Seq<Id>)
    ensures
        c.defined(ids) == ids.filter(|id: Id| c.defs.contains_key(id)).map_values(
            |id: Id| (id, c.defs[id]),
        ),
    decreases ids.len(),
{
    reveal(Seq::filter);
    let keep = |id: Id| c.defs.contains_key(id);
    if ids.len() > 0 {
        lemma_defined_filter(c, ids.drop_last());
    }
    assert(c.defined(ids) =~= ids.filter(keep).map_values(|id: Id| (id, c.defs[id])));
}

/// All answers are the answers of the crates, one after the other.
proof fn lemma_all_flat<T>(crates: Seq<(CrateIdView, CrateView)>, ask: spec_fn(CrateView) -> Seq<T>)
    ensures
        all(crates, ask) == crates.map_values(|c: (CrateIdView, CrateView)| ask(c.1)).flatten(),
    decreases crates.len(),
{
    let each = crates.map_values(|c: (CrateIdView, CrateView)| ask(c.1));
    if crates.len() > 0 {
        let before = crates.drop_last();
        lemma_all_flat(before, ask);
        let each_before = before.map_values(|c: (CrateIdView, CrateView)| ask(c.1));
        assert(each =~= each_before.push(ask(crates.last().1)));
        each_before.lemma_flatten_push(ask(crates.last().1));
    } else {
        assert(each.flatten() =~= Seq::empty());
    }
}

/// The ids with a name are those that each crate lists under it, crate by crate.
pub proof fn law_ids_crate_by_crate(a: AnalysisView, name: Seq<char>)
    ensures
        a.ids_named(name) == a.crates.map_values(
            |c: (CrateIdView, CrateView)| list_of(c.1.def_names, name),
        ).flatten(),
{
    let ask = |c: CrateView| list_of(c.def_names, name);
    lemma_all_flat(a.crates, ask);
    lemma_all_same(a.crates, ask, |c: CrateView| or_empty(lookup(c.def_names, name)));
    assert(a.crates.map_values(|c: (CrateIdView, CrateView)| ask(c.1)) =~= a.crates.map_values(
        |c: (CrateIdView, CrateView)| list_of(c.1.def_names, name),
    ));
}

/// Two questions that every crate answers alike are answered alike by all.
proof fn lemma_all_same<T>(
    crates: Seq<(CrateIdView, CrateView)>,
    ask: spec_fn(CrateView) -> Seq<T>,
    other: spec_fn(CrateView) -> Seq<T>,
)
    requires
        forall|i: int| 0 <= i < crates.len() ==> ask((#[trigger] crates[i]).1) == other(crates[i].1),
    ensures
        all(crates, ask) == all(crates, other),
    decreases crates.len(),
{
    if crates.len() > 0 {
        let before = crates.drop_last();
        assert forall|i: int| 0 <= i < before.len() implies ask((#[trigger] before[i]).1) == other(
            before[i].1,
        ) by {
            assert(before[i] == crates[i]);
        }
        lemma_all_same(before, ask, other);
        assert(ask(crates[crates.len() - 1].1) == other(crates[crates.len() - 1].1));
    }
}

/// The definitions with a name are those of the ids that each crate lists under it,
/// crate by crate, each as that crate has it.
pub proof fn law_definitions_crate_by_crate(a: AnalysisView, name: Seq<char>)
    requires
        a.consistent(),
    ensures
        a.defs_named(name) == a.crates.map_values(
            |c: (CrateIdView, CrateView)|
                list_of(c.1.def_names, name).map_values(|id: Id| c.1.defs[id]),
        ).flatten(),
{
    let ask = |c: CrateView| list_of(c.def_names, name).map_values(|id: Id| c.defs[id]);
    let other = |c: CrateView|
        c.defined(or_empty(lookup(c.def_names, name))).map_values(
            |d: (Id, DefView)| d.1,
        );
    lemma_all_flat(a.crates, ask);
    assert forall|i: int| 0 <= i < a.crates.len() implies ask((#[trigger] a.crates[i]).1) == other(
        a.crates[i].1,
    ) by {
        let c = a.crates[i].1;
        let ids = list_of(c.def_names, name);
        assert forall|k: int| 0 <= k < ids.len() implies c.defs.contains_key(#[trigger] ids[k]) by {
            assert(listed(c.def_names, name, ids[k]));
        }
        lemma_all_defined(c, ids);
        assert(ask(c) =~= other(c));
    }
    lemma_all_same(a.crates, ask, other);
    assert(a.crates.map_values(|c: (CrateIdView, CrateView)| ask(c.1)) =~= a.crates.map_values(
        |c: (CrateIdView, CrateView)|
            list_of(c.1.def_names, name).map_values(|id: Id| c.1.defs[id]),
    ));
}

/// Where all of some ids are defined, each gives its definition.
proof fn lemma_all_defined(c: CrateView, ids: Seq<Id>)
    requires
        forall|k: int| 0 <= k < ids.len() ==> c.defs.contains_key(#[trigger] ids[k]),
    ensures
        c.defined(ids) == ids.map_values(|id: Id| (id, c.defs[id])),
    decreases ids.len(),
{
    if ids.len() > 0 {
        let before = ids.drop_last();
        assert forall|k: int| 0 <= k < before.len() implies c.defs.contains_key(
            #[trigger] before[k],
        ) by {
            assert(before[k] == ids[k]);
        }
        lemma_all_defined(c, before);
        assert(c.defs.contains_key(ids[ids.len() - 1]));
    }
    assert(c.defined(ids) =~= ids.map_values(|id: Id| (id, c.defs[id])));
}

/// The roots are those of the crates that have one, crate by crate, each with the
/// name of its crate.
pub proof fn law_roots_crate_by_crate(a: AnalysisView)
    ensures
        a.roots() == a.crates.map_values(
            |c: (CrateIdView, CrateView)|
                if c.1.root_id is Some {
                    seq![(c.1.root_id->0, c.1.name)]
                } else {
                    Seq::empty()
                },
        ).flatten(),
{
    let ask = |c: CrateView|
        if c.root_id is Some {
            seq![(c.root_id->0, c.name)]
        } else {
            Seq::empty()
        };
    lemma_all_flat(a.crates, ask);
    lemma_all_same(
        a.crates,
        ask,
        |c: CrateView|
            match c.root_id {
                Some(id) => seq![(id, c.name)],
                None => Seq::empty(),
            },
    );
    assert(a.crates.map_values(|c: (CrateIdView, CrateView)| ask(c.1)) =~= a.crates.map_values(
        |c: (CrateIdView, CrateView)|
            if c.1.root_id is Some {
                seq![(c.1.root_id->0, c.1.name)]
            } else {
                Seq::empty()
            },
    ));
}

/// The implementations of a definition are those that each crate lists for it, crate
/// by crate.
pub proof fn law_impls_crate_by_crate(a: AnalysisView, id: Id)
    ensures
        a.impls(id) == a.crates.map_values(
            |c: (CrateIdView, CrateView)| list_of(c.1.impls, id),
        ).flatten(),
{
    let ask = |c: CrateView| list_of(c.impls, id);
    lemma_all_flat(a.crates, ask);
    lemma_all_same(a.crates, ask, |c: CrateView| or_empty(lookup(c.impls, id)));
    assert(a.crates.map_values(|c: (CrateIdView, CrateView)| ask(c.1)) =~= a.crates.map_values(
        |c: (CrateIdView, CrateView)| list_of(c.1.impls, id),
    ));
}

/// By an id the span of the definition is found and behind it those of the
/// references; at a span the same for the id there, or the references alone.
pub proof fn law_references(a: AnalysisView, id: Id, span: SpanView)
    ensures
        a.def(id) matches Some(d) ==> (match a.refs(id) {
            Some(refs) => a.def_and_refs(id) == Some(seq![d.span] + refs),
            None => a.def_and_refs(id) == Some(seq![d.span]),
        }),
        a.def(id) is None ==> a.def_and_refs(id) == a.refs(id),
        a.id_at(span) == Some(id) ==> {
            &&& a.all_refs(span, true) == a.def_and_refs(id)
            &&& a.refs(id) matches Some(refs) ==> a.all_refs(span, false) == Some(refs)
            &&& a.refs(id) is None ==> a.all_refs(span, false) == Some(Seq::<SpanView>::empty())
        },
        a.id_at(span) is None ==> a.all_refs(span, true) is None && a.all_refs(span, false) is None,
{
    if a.def(id) is None && a.refs(id) is Some {
        assert(a.def_and_refs(id)->0 =~= a.refs(id)->0);
    }
}

/// A search for a name gives, for each id with that name and one after the other,
/// what is found by that id.
pub proof fn law_search(a: AnalysisView, name: Seq<char>)
    ensures
        a.spans_of(a.ids_named(name)) == a.ids_named(name).map_values(
            |id: Id|
                match a.def_and_refs(id) {
                    Some(spans) => spans,
                    None => Seq::<SpanView>::empty(),
                },
        ).flatten(),
{
    let ids = a.ids_named(name);
    law_search_by_id(a, ids);
    assert(ids.map_values(|id: Id| or_empty(a.def_and_refs(id)))
        =~= ids.map_values(
        |id: Id|
            match a.def_and_refs(id) {
                Some(spans) => spans,
                None => Seq::<SpanView>::empty(),
            },
    ));
}

/// What is found at a span: the place and the documentation of the definition there;
/// its value, or where there is no definition that of a glob import.
pub proof fn law_at_a_span(a: AnalysisView, span: SpanView)
    ensures
        a.id_at(span) matches Some(id) ==> (a.def(id) matches Some(d) ==> {
            &&& a.goto_def(span) == Some(d.span)
            &&& a.docs_at(span) == Some(d.docs)
            &&& a.type_at(span) == Some(d.value)
        }),
        a.id_at(span) is None || a.def(a.id_at(span)->0) is None ==> {
            &&& a.goto_def(span) is None
            &&& a.docs_at(span) is None
            &&& a.type_at(span) == a.glob(span)
        },
{
}

/// Whether a crate defines something with a parent that is defined.
pub open spec fn has_parent(a: AnalysisView, c: CrateView, id: Id) -> bool {
    c.defs.contains_key(id) && c.defs[id].parent is Some && a.def(c.defs[id].parent->0) is Some
}

/// The parent of a definition is the one that the first crate gives that defines it
/// with a parent that is defined, under the name of the parent's definition.
pub proof fn law_parent_of_first_crate(a: AnalysisView, id: Id, i: int)
    ensures
        0 <= i < a.crates.len() && has_parent(a, a.crates[i].1, id) && (forall|j: int|
            0 <= j < i ==> !has_parent(a, (#[trigger] a.crates[j]).1, id)) ==> {
            let p = a.crates[i].1.defs[id].parent->0;
            a.parent(id) == Some((p, a.def(p)->0.name))
        },
        a.parent(id) is None <==> forall|j: int|
            0 <= j < a.crates.len() ==> !has_parent(a, (#[trigger] a.crates[j]).1, id),
{
    let ask = |c: CrateView|
        match lookup(c.defs, id) {
            Some(d) => a.named_parent(d),
            None => None,
        };
    let at = lemma_first_from(a.crates, ask);
    assert forall|j: int| 0 <= j < a.crates.len() implies (ask((#[trigger] a.crates[j]).1) is Some
        <==> has_parent(a, a.crates[j].1, id)) by {}
    if at < a.crates.len() {
        assert(has_parent(a, a.crates[at].1, id));
    }
}

/// A definition without a parent has no ancestors, which is an end; with a parent its
/// way comes to an end where that of the parent does.
pub proof fn law_ancestry_by_parent(a: AnalysisView, id: Id)
    ensures
        a.parent(id) is None ==> a.ancestry_ends(id),
        a.parent(id) matches Some(p) ==> (a.ancestry_ends(id) <==> a.ancestry_ends(p.0)),
{
    if let Some(p) = a.parent(id) {
        if a.ancestry_ends(p.0) {
            let n = choose|n: nat| a.ancestry_within(p.0, n);
            assert(a.ancestry_within(id, n + 1));
        }
        if a.ancestry_ends(id) {
            let n = choose|n: nat| a.ancestry_within(id, n);
            assert(a.ancestry_within(p.0, (n - 1) as nat));
        }
    } else {
        assert(a.ancestry_within(id, 0));
    }
}

/// A way that always goes on has no end.
pub proof fn law_endless_ancestry(a: AnalysisView, way: spec_fn(nat) -> Id)
    requires
        forall|k: nat| (#[trigger] a.parent(way(k))) matches Some(p) && p.0 == way(k + 1),
    ensures
        !a.ancestry_ends(way(0)),
{
    let start = way(0);
    assert forall|n: nat| !(#[trigger] a.ancestry_within(start, n)) by {
        lemma_endless(a, way, 0, n);
    }
}

proof fn lemma_endless(a: AnalysisView, way: spec_fn(nat) -> Id, k: nat, n: nat)
    requires
        forall|k: nat| (#[trigger] a.parent(way(k))) matches Some(p) && p.0 == way(k + 1),
    ensures
        !a.ancestry_within(way(k), n),
    decreases n,
{
    assert(a.parent(way(k)) is Some);
    if n > 0 {
        lemma_endless(a, way, k + 1, (n - 1) as nat);
    }
}

} // verus!
