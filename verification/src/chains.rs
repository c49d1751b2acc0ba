//! Whether the ways that some queries go come to an end. Data may say of a
//! definition that it is inside itself; then the way to its outermost ancestor, or
//! to the page that it is documented on, has no end.
use vstd::prelude::*;
use vstd::set_lib::{lemma_int_range, lemma_len_subset, set_int_range};

use crate::analysis::{Analysis, AnalysisView};
use crate::basics::Id;
use crate::host::AnalysisHost;
use crate::per_crate::{has_id, Def, DefView};
use crate::raw::DefKind;
use crate::span::Span;
use crate::urls::{mk_doc_url, on_parent_page};

verus! {

/// There are only so many ids.
proof fn lemma_ids_bounded(ids: Seq<Id>)
    requires
        ids.no_duplicates(),
    ensures
        ids.len() <= u64::MAX + 1,
{
    let numbers = ids.map_values(|id: Id| id.0 as int);
    assert(numbers.no_duplicates()) by {
        assert forall|i: int, j: int|
            0 <= i < numbers.len() && 0 <= j < numbers.len() && i != j implies numbers[i]
            != numbers[j] by {
            assert(ids[i] != ids[j]);
        }
    }
    numbers.unique_seq_to_set();
    let range = set_int_range(0, u64::MAX + 1);
    lemma_int_range(0, u64::MAX + 1);
    assert(numbers.to_set().subset_of(range)) by {
        assert forall|n: int| numbers.to_set().contains(n) implies range.contains(n) by {
            let i = numbers.index_of(n);
            assert(numbers[i] == n);
        }
    }
    lemma_len_subset(numbers.to_set(), range);
}

impl AnalysisView {
    /// Whether each of some definitions has the next as its parent.
    pub open spec fn climbs(self, way: Seq<Id>) -> bool {
        forall|k: int|
            0 <= k < way.len() - 1 ==> (self.parent(#[trigger] way[k]) matches Some(p) && p.0
                == way[k + 1])
    }

    /// Where a way comes back to itself it has no end.
    proof fn lemma_climbs_in_circles(self, way: Seq<Id>, back: int, k: int, n: nat)
        requires
            self.climbs(way),
            0 <= back < way.len(),
            self.parent(way.last()) matches Some(p) && p.0 == way[back],
            0 <= k < way.len(),
        ensures
            !self.ancestry_within(way[k], n),
        decreases n,
    {
        if n > 0 {
            let next = if k == way.len() - 1 {
                back
            } else {
                k + 1
            };
            self.lemma_climbs_in_circles(way, back, next, (n - 1) as nat);
        }
    }

    /// Where the last definition of a way has no parent, the way has its length.
    proof fn lemma_climbs_to_the_end(self, way: Seq<Id>, k: int)
        requires
            self.climbs(way),
            0 <= k < way.len(),
            self.parent(way.last()) is None,
        ensures
            self.ancestry_within(way[k], (way.len() - 1 - k) as nat),
        decreases way.len() - k,
    {
        if k < way.len() - 1 {
            self.lemma_climbs_to_the_end(way, k + 1);
        }
    }

    /// Whether each of some definitions is documented on the page of the next,
    /// which is the one with the id in the same place.
    pub open spec fn leads(self, way: Seq<DefView>, ids: Seq<Id>) -> bool {
        &&& way.len() == ids.len() + 1
        &&& forall|k: int|
            0 <= k < ids.len() ==> self.page_owner(#[trigger] way[k]) == Some(way[k + 1])
                && self.def(ids[k]) == Some(way[k + 1])
    }

    /// Where a way comes back to itself it leads to no page.
    proof fn lemma_leads_in_circles(
        self,
        way: Seq<DefView>,
        ids: Seq<Id>,
        back: int,
        k: int,
        n: nat,
    )
        requires
            self.leads(way, ids),
            0 <= back < way.len(),
            self.page_owner(way.last()) == Some(way[back]),
            0 <= k < way.len(),
        ensures
            !self.page_within(way[k], n),
        decreases n,
    {
        if n > 0 {
            let next = if k == way.len() - 1 {
                back
            } else {
                k + 1
            };
            self.lemma_leads_in_circles(way, ids, back, next, (n - 1) as nat);
        }
    }

    /// Where the last definition of a way has a page, the way has its length.
    proof fn lemma_leads_to_a_page(self, way: Seq<DefView>, ids: Seq<Id>, k: int)
        requires
            self.leads(way, ids),
            0 <= k < way.len(),
            self.page_owner(way.last()) is None,
        ensures
            self.page_within(way[k], (way.len() - 1 - k) as nat),
        decreases way.len() - k,
    {
        if k < way.len() - 1 {
            self.lemma_leads_to_a_page(way, ids, k + 1);
        }
    }
}

/// Whether the way from a definition to its outermost ancestor comes to an end.
pub fn ancestry_ends(analysis: &Analysis, id: Id) -> (b: bool)
    ensures
        b == analysis@.ancestry_ends(id),
{
    let mut way: Vec<Id> = Vec::new();
    way.push(id);
    let mut last = id;
    loop
        invariant
            way@.len() > 0,
            way@[0] == id,
            way@.last() == last,
            way@.no_duplicates(),
            analysis@.climbs(way@),
        decreases u64::MAX + 1 - way@.len(),
    {
        match analysis.parent(last) {
            None => {
                proof {
                    analysis@.lemma_climbs_to_the_end(way@, 0);
                }
                return true;
            },
            Some((parent, _)) => {
                if has_id(&way, parent) {
                    proof {
                        let back = way@.index_of(parent);
                        assert forall|n: nat| !analysis@.ancestry_within(id, n) by {
                            analysis@.lemma_climbs_in_circles(way@, back, 0, n);
                        }
                    }
                    return false;
                }
                let ghost before = way@;
                way.push(parent);
                proof {
                    assert forall|k: int| 0 <= k < way@.len() - 1 implies (analysis@.parent(
                        #[trigger] way@[k],
                    ) matches Some(p) && p.0 == way@[k + 1]) by {
                        assert(way@[k] == before[k]);
                        if k < before.len() - 1 {
                            assert(way@[k + 1] == before[k + 1]);
                        }
                    }
                    lemma_ids_bounded(way@);
                }
                last = parent;
            },
        }
    }
}

/// Whether the way from a definition to the page that it is documented on comes
/// to an end.
pub fn has_page(analysis: &Analysis, def: &Def) -> (b: bool)
    ensures
        b == analysis@.has_page(def@),
{
    let mut ids: Vec<Id> = Vec::new();
    let mut last: &Def = def;
    let ghost mut way: Seq<DefView> = seq![def@];
    loop
        invariant
            way.len() > 0,
            way[0] == def@,
            way.last() == last@,
            ids@.no_duplicates(),
            analysis@.leads(way, ids@),
        decreases u64::MAX + 1 - ids@.len(),
    {
        let inside = match last.kind {
            DefKind::Field | DefKind::Method | DefKind::Tuple => last.distro_crate,
            _ => false,
        };
        assert(inside == (last@.distro_crate && on_parent_page(last@.kind)));
        let owner = match last.parent {
            Some(parent) => match analysis.def(parent) {
                Some(owner) => if inside {
                    Some((parent, owner))
                } else {
                    None
                },
                None => None,
            },
            None => None,
        };
        match owner {
            None => {
                proof {
                    analysis@.lemma_leads_to_a_page(way, ids@, 0);
                }
                return true;
            },
            Some((parent, owner)) => {
                if has_id(&ids, parent) {
                    proof {
                        let back = ids@.index_of(parent) + 1;
                        assert(analysis@.page_owner(way[back - 1]) == Some(way[back]));
                        assert forall|n: nat| !analysis@.page_within(def@, n) by {
                            analysis@.lemma_leads_in_circles(way, ids@, back, 0, n);
                        }
                    }
                    return false;
                }
                let ghost ids_before = ids@;
                let ghost before = way;
                ids.push(parent);
                proof {
                    way = way.push(owner@);
                    assert forall|k: int| 0 <= k < ids@.len() implies analysis@.page_owner(
                        #[trigger] way[k],
                    ) == Some(way[k + 1]) && analysis@.def(ids@[k]) == Some(way[k + 1]) by {
                        assert(way[k] == before[k]);
                        if k < ids_before.len() {
                            assert(way[k + 1] == before[k + 1]);
                            assert(ids@[k] == ids_before[k]);
                        }
                    }
                    lemma_ids_bounded(ids@);
                }
                last = owner;
            },
        }
    }
}

/// Whether the way to the page that a definition is documented on comes to an end,
/// in each crate up to the first where it has one.
#[verifier::loop_isolation(false)]
pub fn doc_url_ends(analysis: &Analysis, id: Id) -> (b: bool)
    ensures
        b == analysis@.doc_url_ends(id),
{
    let ghost ask = analysis@.doc_url_in(id);
    for i in 0..analysis.crate_count()
        invariant
            forall|j: int| 0 <= j < i ==> ask((#[trigger] analysis@.crates[j]).1) is None,
            forall|j: int|
                0 <= j < i && (#[trigger] analysis@.crates[j]).1.defs.contains_key(id)
                    ==> analysis@.has_page(analysis@.crates[j].1.defs[id]),
    {
        if let Some(def) = analysis.crate_at(i).def(id) {
            assert(analysis@.crates[i as int].1.defs.contains_key(id));
            if !has_page(analysis, def) {
                return false;
            }
            if mk_doc_url(def, analysis).is_some() {
                assert(ask(analysis@.crates[i as int].1) is Some);
                return true;
            }
        }
    }
    true
}

impl<L> AnalysisHost<L> {
    /// Whether [`Self::def_parents`] comes to an end.
    pub fn def_parents_end(&self, id: Id) -> (b: bool)
        ensures
            b == (self@.known() matches Some(a) ==> a.ancestry_ends(id)),
    {
        let r = self.with_analysis(
            |a: &Analysis| -> (o: Option<bool>)
                ensures
                    o == Some(a@.ancestry_ends(id))
                { Some(ancestry_ends(a, id)) },
        );
        match r {
            Ok(b) => b,
            Err(_) => true,
        }
    }

    /// Whether [`Self::doc_url`] comes to an end.
    pub fn doc_url_ends(&self, span: &Span) -> (b: bool)
        ensures
            b == (self@.known() matches Some(a) ==> (a.id_at(span@) matches Some(id)
                ==> a.doc_url_ends(id))),
    {
        let r = self.with_analysis(
            |a: &Analysis| -> (o: Option<bool>)
                ensures
                    o == Some(a@.id_at(span@) matches Some(id) ==> a@.doc_url_ends(id))
                {
                    match a.id_at(span) {
                        Some(id) => Some(doc_url_ends(a, id)),
                        None => Some(true),
                    }
                },
        );
        match r {
            Ok(b) => b,
            Err(_) => true,
        }
    }
}

} // verus!
