//! How the answers to different queries fit together.
use vstd::prelude::*;

use crate::analysis::{all, lemma_first_from, or_empty, AnalysisView};
use crate::basics::{CrateIdView, Id};
use crate::laws::listed;
use crate::path::PathView;
use crate::per_crate::{lookup, CrateView, DefView};
use crate::raw::{name_space, DefKind};
use crate::span::SpanView;
use crate::urls::on_parent_page;

verus! {

/// What stands among the answers of all crates is an answer of one of them, and
/// the answers of each stand there.
pub proof fn lemma_all_has<T>(
    crates: Seq<(CrateIdView, CrateView)>,
    ask: spec_fn(CrateView) -> Seq<T>,
    t: T,
)
    ensures
        all(crates, ask).contains(t) <==> exists|i: int|
            0 <= i < crates.len() && ask((#[trigger] crates[i]).1).contains(t),
    decreases crates.len(),
{
    if crates.len() > 0 {
        let before = crates.drop_last();
        let front = all(before, ask);
        let back = ask(crates.last().1);
        lemma_all_has(before, ask, t);
        if all(crates, ask).contains(t) {
            let k = all(crates, ask).index_of(t);
            if k < front.len() {
                assert(front[k] == t);
                let i = choose|i: int|
                    0 <= i < before.len() && ask((#[trigger] before[i]).1).contains(t);
                assert(crates[i] == before[i]);
            } else {
                assert(back[k - front.len()] == t);
                assert(ask(crates[crates.len() - 1].1).contains(t));
            }
        }
        if exists|i: int| 0 <= i < crates.len() && ask((#[trigger] crates[i]).1).contains(t) {
            let i = choose|i: int|
                0 <= i < crates.len() && ask((#[trigger] crates[i]).1).contains(t);
            if i < before.len() {
                assert(before[i] == crates[i]);
                let k = front.index_of(t);
                assert(all(crates, ask)[k] == t);
            } else {
                let k = back.index_of(t);
                assert(all(crates, ask)[front.len() + k] == t);
            }
        }
    }
}

/// What is found by an id holds all references and the definition, and the
/// definition is always first. Nothing is found only where there is neither.
pub proof fn law_definition_comes_first(a: AnalysisView, id: Id)
    ensures
        a.def_and_refs(id) is None <==> a.def(id) is None && a.refs(id) is None,
        a.def_and_refs(id) matches Some(spans) ==> {
            match a.def(id) {
                Some(d) => spans.len() > 0 && spans[0] == d.span && spans.skip(1) == or_empty(
                    a.refs(id),
                ),
                None => spans == or_empty(a.refs(id)),
            }
        },
{
    if let Some(spans) = a.def_and_refs(id) {
        match a.def(id) {
            Some(d) => {
                assert(spans.skip(1) =~= or_empty(a.refs(id)));
            },
            None => {
                assert(spans =~= or_empty(a.refs(id)));
            },
        }
    }
}

/// Looking for references at a span is looking for them by the id at the span.
/// Without the declaration it is the same, but for the span of the definition.
pub proof fn law_refs_by_span_and_by_id(a: AnalysisView, span: SpanView)
    ensures
        a.id_at(span) is None ==> a.all_refs(span, true) is None && a.all_refs(span, false) is None,
        a.id_at(span) matches Some(id) ==> {
            &&& a.all_refs(span, true) == a.def_and_refs(id)
            &&& a.all_refs(span, false) is Some
            &&& a.all_refs(span, true) matches Some(spans) ==> spans == a.def_span(id)
                + a.all_refs(span, false)->0
        },
{
    if let Some(id) = a.id_at(span) {
        if let Some(spans) = a.all_refs(span, true) {
            assert(spans =~= a.def_span(id) + a.all_refs(span, false)->0);
        }
    }
}

/// Searching for a name gives what is found by each of the ids with that name,
/// one after the other.
pub proof fn law_search_by_id(a: AnalysisView, ids: Seq<Id>)
    ensures
        a.spans_of(ids) == ids.map_values(|id: Id| or_empty(a.def_and_refs(id))).flatten(),
{
    let lists = ids.map_values(|id: Id| or_empty(a.def_and_refs(id)));
    lemma_spans_flat(a, ids);
    lists.lemma_flatten_and_flatten_alt_are_equivalent();
}

proof fn lemma_spans_flat(a: AnalysisView, ids: Seq<Id>)
    ensures
        a.spans_of(ids) == ids.map_values(
            |id: Id| or_empty(a.def_and_refs(id)),
        ).flatten_alt(),
    decreases ids.len(),
{
    let lists = ids.map_values(|id: Id| or_empty(a.def_and_refs(id)));
    if ids.len() > 0 {
        lemma_spans_flat(a, ids.drop_last());
        assert(lists.drop_last() =~= ids.drop_last().map_values(
            |id: Id| or_empty(a.def_and_refs(id)),
        ));
    }
}

/// The ids that are found for a name are those of the definitions with that
/// name, in whatever crate.
pub proof fn law_ids_have_the_name(a: AnalysisView, name: Seq<char>, id: Id)
    requires
        a.consistent(),
    ensures
        a.ids_named(name).contains(id) <==> exists|i: int|
            0 <= i < a.crates.len() && (#[trigger] a.crates[i]).1.defs.contains_key(id)
                && a.crates[i].1.defs[id].name == name,
        a.ids_named(name).contains(id) ==> a.def(id) is Some,
{
    let ask = |c: CrateView| or_empty(lookup(c.def_names, name));
    lemma_all_has(a.crates, ask, id);
    assert forall|i: int| 0 <= i < a.crates.len() implies ask((#[trigger] a.crates[i]).1).contains(
        id,
    ) == (a.crates[i].1.defs.contains_key(id) && a.crates[i].1.defs[id].name == name) by {
        let c = a.crates[i].1;
        assert(ask(c).contains(id) == listed(c.def_names, name, id));
    }
    if a.ids_named(name).contains(id) {
        let i = choose|i: int| 0 <= i < a.crates.len() && ask((#[trigger] a.crates[i]).1).contains(id);
        a.lemma_def_found(id, i);
    }
}

/// The definitions that are found for a name are those with that name, in
/// whatever crate.
pub proof fn law_definitions_have_the_name(a: AnalysisView, name: Seq<char>, d: DefView)
    requires
        a.consistent(),
    ensures
        a.defs_named(name).contains(d) <==> exists|i: int, id: Id|
            0 <= i < a.crates.len() && (#[trigger] a.crates[i].1.defs.contains_key(id))
                && a.crates[i].1.defs[id] == d && d.name == name,
{
    let ask = |c: CrateView|
        c.defined(or_empty(lookup(c.def_names, name))).map_values(|d: (Id, DefView)| d.1);
    lemma_all_has(a.crates, ask, d);
    if a.defs_named(name).contains(d) {
        let i = choose|i: int| 0 <= i < a.crates.len() && ask((#[trigger] a.crates[i]).1).contains(d);
        let c = a.crates[i].1;
        let ids = or_empty(lookup(c.def_names, name));
        let k = ask(c).index_of(d);
        assert(ask(c)[k] == d);
        let found = c.defined(ids)[k];
        assert(c.defined(ids).contains(found));
        lemma_defined_from(c, ids, found);
        assert(listed(c.def_names, name, found.0));
        assert(a.crates[i].1.defs.contains_key(found.0));
    }
    if exists|i: int, id: Id|
        0 <= i < a.crates.len() && (#[trigger] a.crates[i].1.defs.contains_key(id))
            && a.crates[i].1.defs[id] == d && d.name == name {
        let (i, id) = choose|i: int, id: Id|
            0 <= i < a.crates.len() && (#[trigger] a.crates[i].1.defs.contains_key(id))
                && a.crates[i].1.defs[id] == d && d.name == name;
        let c = a.crates[i].1;
        let ids = or_empty(lookup(c.def_names, name));
        assert(listed(c.def_names, name, id));
        c.lemma_defined_has(ids, ids.index_of(id));
        let k = c.defined(ids).index_of((id, d));
        assert(ask(c)[k] == d);
        assert(ask(a.crates[i].1).contains(d));
    }
}

/// What is among the definitions of some ids is the definition of one of them.
proof fn lemma_defined_from(c: CrateView, ids: Seq<Id>, found: (Id, DefView))
    requires
        c.defined(ids).contains(found),
    ensures
        ids.contains(found.0),
        c.defs.contains_key(found.0),
        c.defs[found.0] == found.1,
    decreases ids.len(),
{
    if ids.len() > 0 {
        let before = c.defined(ids.drop_last());
        let k = c.defined(ids).index_of(found);
        if k < before.len() {
            assert(before[k] == found);
            lemma_defined_from(c, ids.drop_last(), found);
            let j = ids.drop_last().index_of(found.0);
            assert(ids[j] == found.0);
        } else {
            assert(ids[ids.len() - 1] == found.0);
        }
    }
}

/// What the outline of a file lists is defined, and some crate has its definition
/// in that file. Each definition that the crate has in that file is listed.
pub proof fn law_outline_is_of_the_file(a: AnalysisView, file: PathView) -> (i: int)
    requires
        a.consistent(),
        a.symbols(file) is Some,
    ensures
        0 <= i < a.crates.len(),
        a.symbols(file)->0.len() == a.file_defs(file)->0.len(),
        forall|k: int|
            0 <= k < a.symbols(file)->0.len() ==> {
                let id = (#[trigger] a.symbols(file)->0[k]).id;
                &&& id == a.file_defs(file)->0[k]
                &&& a.def(id) is Some
                &&& a.symbols(file)->0[k].name == a.def(id)->0.name
                &&& a.crates[i].1.defs.contains_key(id)
                &&& a.crates[i].1.defs[id].span.file.key() == file.key()
            },
        forall|id: Id|
            #![trigger a.crates[i].1.defs.contains_key(id)]
            a.crates[i].1.defs.contains_key(id) && a.crates[i].1.defs[id].span.file.key() == file.key()
                ==> a.file_defs(file)->0.contains(id),
{
    let ask = |c: CrateView| lookup(c.defs_per_file, file.key());
    let i = lemma_first_from(a.crates, ask);
    let c = a.crates[i].1;
    let ids = a.file_defs(file)->0;
    assert forall|k: int| 0 <= k < a.symbols(file)->0.len() implies {
        let id = (#[trigger] a.symbols(file)->0[k]).id;
        &&& id == ids[k]
        &&& a.def(id) is Some
        &&& a.symbols(file)->0[k].name == a.def(id)->0.name
        &&& c.defs.contains_key(id)
        &&& c.defs[id].span.file.key() == file.key()
    } by {
        let id = ids[k];
        assert(listed(c.defs_per_file, file.key(), id));
        a.lemma_def_found(id, i);
    }
    assert forall|id: Id|
        #![trigger a.crates[i].1.defs.contains_key(id)]
        a.crates[i].1.defs.contains_key(id) && a.crates[i].1.defs[id].span.file.key()
            == file.key() implies ids.contains(id) by {
        assert(listed(c.defs_per_file, file.key(), id));
    }
    i
}

/// The span of every definition leads somewhere, and where an id is found in the
/// crate of the span, its definition is known.
pub proof fn law_spans_lead_to_definitions(a: AnalysisView, span: SpanView)
    requires
        a.consistent(),
    ensures
        forall|i: int, id: Id|
            0 <= i < a.crates.len() && (#[trigger] a.crates[i].1.defs.contains_key(id))
                && a.crates[i].1.defs[id].span.key() == span.key() ==> a.id_at(span) is Some,
        a.local_id_at(span) matches Some(id) ==> a.id_at(span) is Some && a.def(id) is Some,
{
    let ask = |c: CrateView| lookup(c.def_id_for_span, span.key());
    lemma_first_from(a.crates, ask);
    assert forall|i: int, id: Id|
        0 <= i < a.crates.len() && (#[trigger] a.crates[i].1.defs.contains_key(id))
            && a.crates[i].1.defs[id].span.key() == span.key() implies a.id_at(span) is Some by {
        assert(ask(a.crates[i].1) is Some);
    }
    if let Some(id) = a.local_id_at(span) {
        let i = lemma_first_from(a.crates, |c: CrateView| c.local_id_at(span));
        assert(ask(a.crates[i].1) is Some);
        a.lemma_def_found(id, i);
    }
}

/// Where there is a place to go to, the id at the span is known and has a
/// definition; and the place is that of the definition.
pub proof fn law_goto_needs_definition(a: AnalysisView, span: SpanView)
    ensures
        a.goto_def(span) is Some <==> a.id_at(span) is Some && a.def(a.id_at(span)->0) is Some,
        a.goto_def(span) matches Some(to) ==> to == a.def(a.id_at(span)->0)->0.span,
        a.goto_def(span) is Some <==> a.docs_at(span) is Some,
        a.goto_def(span) is Some ==> a.type_at(span) is Some,
{
}

/// The ancestors of a definition are those of its parent and then the parent;
/// where it has no parent it has no ancestors.
pub proof fn law_ancestors_by_parent(a: AnalysisView, id: Id)
    requires
        a.ancestry_ends(id),
    ensures
        match a.parent(id) {
            Some(p) => a.ancestry_ends(p.0) && a.ancestors(id) == a.ancestors(p.0).push(p),
            None => a.ancestors(id) == Seq::<(Id, Seq<char>)>::empty(),
        },
{
    let n = choose|n: nat| a.ancestry_within(id, n);
    if let Some(p) = a.parent(id) {
        assert(a.ancestry_within(p.0, (n - 1) as nat));
        let m = choose|m: nat| a.ancestry_within(p.0, m);
        a.lemma_ancestors_bound(p.0, (n - 1) as nat, m);
    }
}

/// All ancestors are defined and each is named as its definition is.
pub proof fn law_ancestors_defined(a: AnalysisView, id: Id)
    requires
        a.ancestry_ends(id),
    ensures
        forall|k: int|
            0 <= k < a.ancestors(id).len() ==> (a.def((#[trigger] a.ancestors(id)[k]).0) matches Some(
                d,
            ) && d.name == a.ancestors(id)[k].1),
{
    lemma_ancestors_defined(a, id, choose|n: nat| a.ancestry_within(id, n));
}

proof fn lemma_ancestors_defined(a: AnalysisView, id: Id, n: nat)
    ensures
        forall|k: int|
            0 <= k < a.ancestors_within(id, n).len() ==> (a.def(
                (#[trigger] a.ancestors_within(id, n)[k]).0,
            ) matches Some(d) && d.name == a.ancestors_within(id, n)[k].1),
    decreases n,
{
    if let Some(p) = a.parent(id) {
        if n > 0 {
            lemma_ancestors_defined(a, p.0, (n - 1) as nat);
            lemma_first_from(
                a.crates,
                |c: CrateView|
                    match lookup(c.defs, id) {
                        Some(d) => a.named_parent(d),
                        None => None,
                    },
            );
        }
    }
}

/// The root modules are those of the crates that have one, with the names of the
/// crates, and each is a module.
pub proof fn law_roots_are_modules(a: AnalysisView, id: Id, name: Seq<char>)
    requires
        a.consistent(),
    ensures
        a.roots().contains((id, name)) <==> exists|i: int|
            0 <= i < a.crates.len() && (#[trigger] a.crates[i]).1.root_id == Some(id)
                && a.crates[i].1.name == name,
        a.roots().contains((id, name)) ==> exists|i: int|
            0 <= i < a.crates.len() && (#[trigger] a.crates[i]).1.defs.contains_key(id)
                && a.crates[i].1.defs[id].kind == DefKind::Mod,
{
    let ask = |c: CrateView|
        match c.root_id {
            Some(id) => seq![(id, c.name)],
            None => Seq::empty(),
        };
    lemma_all_has(a.crates, ask, (id, name));
    assert forall|i: int| 0 <= i < a.crates.len() implies ask((#[trigger] a.crates[i]).1).contains(
        (id, name),
    ) == (a.crates[i].1.root_id == Some(id) && a.crates[i].1.name == name) by {
        let c = a.crates[i].1;
        if c.root_id == Some(id) && c.name == name {
            assert(ask(c)[0] == (id, name));
        }
    }
    if a.roots().contains((id, name)) {
        let i = choose|i: int|
            0 <= i < a.crates.len() && ask((#[trigger] a.crates[i]).1).contains((id, name));
        assert(a.crates[i].1.defs.contains_key(id));
    }
}

/// The implementations that are found are those of every crate.
pub proof fn law_impls_of_all_crates(a: AnalysisView, id: Id, span: SpanView)
    ensures
        a.impls(id).contains(span) <==> exists|i: int|
            0 <= i < a.crates.len() && listed((#[trigger] a.crates[i]).1.impls, id, span),
{
    let ask = |c: CrateView| or_empty(lookup(c.impls, id));
    lemma_all_has(a.crates, ask, span);
    assert forall|i: int| 0 <= i < a.crates.len() implies ask((#[trigger] a.crates[i]).1).contains(
        span,
    ) == listed(a.crates[i].1.impls, id, span) by {
    }
}

/// The children of a definition are definitions of one crate, which lists them
/// under it; and a definition that this crate has with it as parent is among them.
pub proof fn law_children_of_one_crate(a: AnalysisView, id: Id) -> (i: int)
    requires
        a.consistent(),
        a.children(id).len() > 0,
    ensures
        0 <= i < a.crates.len(),
        forall|child: Id, d: DefView| #[trigger]
            a.children(id).contains((child, d)) <==> listed(a.crates[i].1.children, id, child)
                && a.crates[i].1.defs.contains_key(child) && a.crates[i].1.defs[child] == d,
        forall|child: Id|
            #![trigger a.crates[i].1.defs.contains_key(child)]
            a.crates[i].1.defs.contains_key(child) && a.crates[i].1.defs[child].parent == Some(id)
                ==> a.children(id).contains((child, a.crates[i].1.defs[child])),
{
    let ask = |c: CrateView|
        match lookup(c.children, id) {
            Some(ids) => Some(c.defined(ids)),
            None => None,
        };
    let i = lemma_first_from(a.crates, ask);
    let c = a.crates[i].1;
    let ids = c.children[id];
    assert forall|child: Id, d: DefView| #[trigger]
        a.children(id).contains((child, d)) == (listed(c.children, id, child)
            && c.defs.contains_key(child) && c.defs[child] == d) by {
        if a.children(id).contains((child, d)) {
            lemma_defined_from(c, ids, (child, d));
        }
        if listed(c.children, id, child) && c.defs.contains_key(child) && c.defs[child] == d {
            c.lemma_defined_has(ids, ids.index_of(child));
        }
    }
    assert forall|child: Id|
        #![trigger a.crates[i].1.defs.contains_key(child)]
        a.crates[i].1.defs.contains_key(child) && a.crates[i].1.defs[child].parent == Some(
            id,
        ) implies a.children(id).contains((child, a.crates[i].1.defs[child])) by {
        assert(listed(c.children, id, child));
    }
    i
}

/// What is not of a crate that the compiler is shipped with has no place on the
/// web.
pub proof fn law_only_shipped_crates_on_the_web(
    a: AnalysisView,
    id: Id,
    path_prefix: Option<PathView>,
)
    requires
        forall|i: int|
            0 <= i < a.crates.len() && (#[trigger] a.crates[i]).1.defs.contains_key(id)
                ==> !a.crates[i].1.defs[id].distro_crate,
    ensures
        a.doc_url(id) is None,
        a.src_url(id, path_prefix) is None,
{
    lemma_first_from(a.crates, a.doc_url_in(id));
    lemma_first_from(
        a.crates,
        |c: CrateView|
            match lookup(c.defs, id) {
                Some(d) => a.mk_src_url(d, path_prefix),
                None => None,
            },
    );
}

/// Fields, methods and tuple parts are documented on the page of their parent,
/// under a mark made of their name and name space.
pub proof fn law_members_on_parent_page(a: AnalysisView, d: DefView, parent: DefView)
    requires
        d.distro_crate,
        on_parent_page(d.kind),
        d.parent matches Some(p) && a.def(p) == Some(parent),
        a.has_page(d),
    ensures
        a.has_page(parent),
        a.mk_doc_url(d) == Some(
            ((match a.mk_doc_url(parent) {
                Some(url) => url,
                None => Seq::empty(),
            }) + "#"@ + d.name + "."@).push(name_space(d.kind)),
        ),
{
    let n = choose|n: nat| a.page_within(d, n);
    assert(a.page_owner(d) == Some(parent));
    assert(a.page_within(parent, (n - 1) as nat));
    let m = choose|m: nat| a.page_within(parent, m);
    a.lemma_doc_url_bound(parent, (n - 1) as nat, m);
}

} // verus!
