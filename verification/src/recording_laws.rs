//! What a crate knows after something was recorded: what is new, and that all else
//! stays.
use vstd::prelude::*;

use crate::basics::Id;
use crate::finding_laws::list_of;
use crate::laws::{lemma_listed_append, lemma_listed_child, listed};
use crate::per_crate::{add_child, add_children, append_to, CrateView, DefView};
use crate::raw::DefKind;
use crate::span::SpanView;

verus! {

/// Of a crate without data nothing is found.
pub proof fn law_blank_crate(name: Seq<char>, timestamp: u128)
    ensures
        CrateView::blank(name, timestamp).defs == Map::<Id, DefView>::empty(),
        CrateView::blank(name, timestamp).def_id_for_span.dom().is_empty(),
        CrateView::blank(name, timestamp).defs_per_file.dom().is_empty(),
        CrateView::blank(name, timestamp).def_names.dom().is_empty(),
        CrateView::blank(name, timestamp).children.dom().is_empty(),
        CrateView::blank(name, timestamp).ref_spans.dom().is_empty(),
        CrateView::blank(name, timestamp).globs.dom().is_empty(),
        CrateView::blank(name, timestamp).impls.dom().is_empty(),
        CrateView::blank(name, timestamp).root_id is None,
        CrateView::blank(name, timestamp).name == name,
        CrateView::blank(name, timestamp).timestamp == timestamp,
{
}

/// Whether the list of one key grew by one element at its end, and the lists of all
/// other keys stayed.
pub open spec fn grew<K, V>(before: Map<K, Seq<V>>, after: Map<K, Seq<V>>, k: K, v: V) -> bool {
    &&& forall|other: K| other != k ==> list_of(after, other) == #[trigger] list_of(before, other)
    &&& forall|other: K|
        other != k ==> (#[trigger] after.contains_key(other) <==> before.contains_key(other))
    &&& after.contains_key(k)
    &&& after[k].len() == list_of(before, k).len() + 1
    &&& after[k].last() == v
    &&& after[k].drop_last() == list_of(before, k)
}

proof fn lemma_append_grows<K, V>(m: Map<K, Seq<V>>, k: K, v: V)
    ensures
        grew(m, append_to(m, k, v), k, v),
{
    let after = append_to(m, k, v);
    assert(after[k].drop_last() =~= list_of(m, k));
}

/// What [`add_children`] lists.
proof fn lemma_listed_all_children(m: Map<Id, Seq<Id>>, p: Id, cs: Seq<Id>, q: Id, d: Id)
    ensures
        listed(add_children(m, p, cs), q, d) <==> listed(m, q, d) || (q == p && cs.contains(d)),
    decreases cs.len(),
{
    if cs.len() > 0 {
        let before = cs.drop_last();
        lemma_listed_all_children(m, p, before, q, d);
        lemma_listed_child(add_children(m, p, before), p, cs.last(), q, d);
        assert(cs.contains(d) <==> before.contains(d) || cs.last() == d) by {
            if cs.contains(d) {
                let k = cs.index_of(d);
                if k < before.len() {
                    assert(before[k] == d);
                }
            }
            if before.contains(d) {
                assert(cs[before.index_of(d)] == d);
            }
            if cs.last() == d {
                assert(cs[cs.len() - 1] == d);
            }
        }
    }
}

/// Whether no list of a map holds anything twice.
pub open spec fn without_repetition<K, V>(m: Map<K, Seq<V>>) -> bool {
    forall|k: K| #[trigger] m.contains_key(k) ==> m[k].no_duplicates()
}

proof fn lemma_child_once(m: Map<Id, Seq<Id>>, p: Id, c: Id)
    requires
        without_repetition(m),
    ensures
        without_repetition(add_child(m, p, c)),
{
    let after = add_child(m, p, c);
    assert forall|k: Id| #[trigger] after.contains_key(k) implies after[k].no_duplicates() by {
        if k != p {
            assert(m.contains_key(k));
        } else if m.contains_key(p) {
            assert forall|i: int, j: int|
                0 <= i < after[k].len() && 0 <= j < after[k].len() && i != j implies after[k][i]
                != after[k][j] by {
                if i < m[p].len() && j < m[p].len() {
                    assert(m[p][i] != m[p][j]);
                }
            }
        }
    }
}

proof fn lemma_children_once(m: Map<Id, Seq<Id>>, p: Id, cs: Seq<Id>)
    requires
        without_repetition(m),
    ensures
        without_repetition(add_children(m, p, cs)),
    decreases cs.len(),
{
    if cs.len() > 0 {
        lemma_children_once(m, p, cs.drop_last());
        lemma_child_once(add_children(m, p, cs.drop_last()), p, cs.last());
    }
}

/// A definition under a new id is found by its id and, behind those there, under its
/// name and its file; its span leads to it; it is a child of its parent, and has
/// the children that come with it. The first module without a name is the root. All
/// else stays.
pub proof fn law_record_def(c: CrateView, id: Id, d: DefView, children: Seq<Id>)
    requires
        id != Id(u64::MAX),
        !c.defs.contains_key(id),
    ensures
        forall|k: Id| #[trigger]
            c.with_def(id, d, children).defs.contains_key(k) <==> k == id || c.defs.contains_key(k),
        c.with_def(id, d, children).defs[id] == d,
        forall|k: Id| #[trigger]
            c.defs.contains_key(k) ==> c.with_def(id, d, children).defs[k] == c.defs[k],
        grew(c.def_names, c.with_def(id, d, children).def_names, d.name, id),
        grew(c.defs_per_file, c.with_def(id, d, children).defs_per_file, d.span.file.key(), id),
        c.with_def(id, d, children).def_id_for_span == c.def_id_for_span.insert(d.span.key(), id),
        forall|q: Id, k: Id| #[trigger]
            listed(c.with_def(id, d, children).children, q, k) <==> listed(c.children, q, k) || (
            d.parent == Some(q) && k == id) || (q == id && children.contains(k)),
        without_repetition(c.children) ==> without_repetition(
            c.with_def(id, d, children).children,
        ),
        c.root_id is Some ==> c.with_def(id, d, children).root_id == c.root_id,
        c.root_id is None && d.kind == DefKind::Mod && d.name == Seq::<char>::empty()
            ==> c.with_def(id, d, children).root_id == Some(id),
        c.root_id is None && !(d.kind == DefKind::Mod && d.name == Seq::<char>::empty())
            ==> c.with_def(id, d, children).root_id is None,
        c.with_def(id, d, children).ref_spans == c.ref_spans,
        c.with_def(id, d, children).globs == c.globs,
        c.with_def(id, d, children).impls == c.impls,
        c.with_def(id, d, children).name == c.name,
        c.with_def(id, d, children).timestamp == c.timestamp,
{
    let after = c.with_def(id, d, children);
    lemma_append_grows(c.def_names, d.name, id);
    lemma_append_grows(c.defs_per_file, d.span.file.key(), id);
    let with_parent = match d.parent {
        Some(p) => add_child(c.children, p, id),
        None => c.children,
    };
    assert forall|q: Id, k: Id| #[trigger] listed(after.children, q, k) <==> listed(c.children, q, k)
        || (d.parent == Some(q) && k == id) || (q == id && children.contains(k)) by {
        lemma_listed_all_children(with_parent, id, children, q, k);
        if let Some(p) = d.parent {
            lemma_listed_child(c.children, p, id, q, k);
        }
    }
    if without_repetition(c.children) {
        if let Some(p) = d.parent {
            lemma_child_once(c.children, p, id);
        }
        lemma_children_once(with_parent, id, children);
    }
    assert(d.name.len() == 0 <==> d.name =~= Seq::<char>::empty());
}

/// A definition without an id, or under an id that is taken, changes nothing.
pub proof fn law_record_def_passed_over(c: CrateView, id: Id, d: DefView, children: Seq<Id>)
    requires
        id == Id(u64::MAX) || c.defs.contains_key(id),
    ensures
        c.with_def(id, d, children) == c,
{
}

/// A reference is listed behind those there for its definition; its span leads to
/// the definition unless it led somewhere before. All else stays.
pub proof fn law_record_ref(c: CrateView, id: Id, span: SpanView)
    ensures
        grew(c.ref_spans, c.with_ref(id, span).ref_spans, id, span),
        c.def_id_for_span.contains_key(span.key()) ==> c.with_ref(id, span).def_id_for_span
            == c.def_id_for_span,
        !c.def_id_for_span.contains_key(span.key()) ==> c.with_ref(id, span).def_id_for_span
            == c.def_id_for_span.insert(span.key(), id),
        c.with_ref(id, span) == (CrateView {
            ref_spans: c.with_ref(id, span).ref_spans,
            def_id_for_span: c.with_ref(id, span).def_id_for_span,
            ..c
        }),
{
    lemma_append_grows(c.ref_spans, id, span);
}

/// A glob import is found at its span, in place of what was there. All else stays.
pub proof fn law_record_glob(c: CrateView, span: SpanView, value: Seq<char>)
    ensures
        c.with_glob(span, value).globs.contains_key(span.key()),
        c.with_glob(span, value).globs[span.key()] == value,
        c.with_glob(span, value).globs.remove(span.key()) == c.globs.remove(span.key()),
        c.with_glob(span, value) == (CrateView { globs: c.with_glob(span, value).globs, ..c }),
{
    assert(c.with_glob(span, value).globs.remove(span.key()) =~= c.globs.remove(span.key()));
}

/// An implementation is listed behind those there for its definition: a span is
/// listed afterwards exactly where it was before or is the new one. All else stays.
pub proof fn law_record_impl(c: CrateView, id: Id, span: SpanView, other: Id, t: SpanView)
    ensures
        grew(c.impls, c.with_impl(id, span).impls, id, span),
        listed(c.with_impl(id, span).impls, other, t) <==> listed(c.impls, other, t) || (other == id
            && t == span),
        c.with_impl(id, span) == (CrateView { impls: c.with_impl(id, span).impls, ..c }),
{
    lemma_append_grows(c.impls, id, span);
    lemma_listed_append(c.impls, id, span, other, t);
}

} // verus!
