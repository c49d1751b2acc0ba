//! What becomes of the data of a crate when it is lowered: which definitions,
//! references, imports and implementations are known afterwards, and that nothing
//! else is.
use vstd::prelude::*;

use crate::analysis::AnalysisView;
use crate::basics::Id;
use crate::finding_laws::list_of;
use crate::laws::{law_lowered_crate_consistent, lemma_defs_consistent, listed};
use crate::lowering::{
    can_lower, crate_names, external_name, lemma_number_kept, lemma_numbered_has, lowered_crate,
    lowered_span, numbered_all, numbers_after, reader_for, ReaderView,
};
use crate::path::{PathKey, PathView};
use crate::per_crate::{CrateView, DefView};
use crate::raw;
use crate::raw::DefKind;
use crate::recording_laws::{
    grew, law_record_def, law_record_impl, law_record_ref, without_repetition,
};
use crate::span::{Range, SpanKey, SpanView};

verus! {

/// Whether a span of a crate's data is counted from one throughout.
pub open spec fn proper(span: raw::SpanData) -> bool {
    span.line_start > 0 && span.line_end > 0 && span.column_start > 0 && span.column_end > 0
}

/// A span of a crate's data, counted from zero, in a file under the base directory.
pub open spec fn zero_based(span: raw::SpanData, base_dir: PathView) -> SpanView {
    SpanView {
        file: base_dir.join(span.file_name@),
        range: Range {
            row_start: (span.line_start - 1) as u32,
            row_end: (span.line_end - 1) as u32,
            col_start: (span.column_start - 1) as u32,
            col_end: (span.column_end - 1) as u32,
        },
    }
}

/// Rows and columns are counted from zero instead of one, and the file is taken to be
/// under the base directory. There is no such span where a number is zero.
pub proof fn law_spans_from_zero(span: raw::SpanData, base_dir: PathView)
    ensures
        proper(span) <==> lowered_span(span, base_dir) is Some,
        lowered_span(span, base_dir) matches Some(s) ==> {
            &&& s == zero_based(span, base_dir)
            &&& s.file == base_dir.join(span.file_name@)
            &&& s.range.row_start + 1 == span.line_start
            &&& s.range.row_end + 1 == span.line_end
            &&& s.range.col_start + 1 == span.column_start
            &&& s.range.col_end + 1 == span.column_end
        },
{
}

/// An id has the number of its crate in the upper half and its index in the lower. A
/// part that is missing, or a crate that is not known, makes the missing id, and
/// nothing else does.
pub proof fn law_id_halves(reader: ReaderView, id: raw::CompilerId)
    ensures
        id.krate == u32::MAX || id.index == u32::MAX || id.krate >= reader.crate_map.len()
            ==> reader.id(id) == Id(u64::MAX),
        id.krate != u32::MAX && id.index != u32::MAX && id.krate < reader.crate_map.len() ==> {
            &&& reader.id(id) != Id(u64::MAX)
            &&& reader.id(id).0 as int / 0x1_0000_0000 == reader.crate_map[id.krate as int]
            &&& reader.id(id).0 as int % 0x1_0000_0000 == id.index
        },
{
}

/// A crate can be lowered exactly where it says what it is, each number from one to
/// the number of crates it depends on is that of one of them, and there are numbers
/// left for them.
pub proof fn law_what_can_be_lowered(numbers: Map<Seq<char>, u32>, krate: raw::Crate)
    ensures
        krate.analysis.prelude is None ==> !can_lower(numbers, krate),
        krate.analysis.prelude matches Some(prelude) ==> (can_lower(numbers, krate) <==> {
            &&& forall|num: int|
                1 <= num <= prelude.external_crates@.len() ==> #[trigger] has_number(
                    prelude.external_crates@,
                    num,
                )
            &&& numbers.len() + prelude.external_crates@.len() < u32::MAX
        }),
{
    if let Some(prelude) = krate.analysis.prelude {
        let crates = prelude.external_crates@;
        assert forall|num: int| 1 <= num <= crates.len() implies (#[trigger] has_number(crates, num)
            <==> external_name(crates, num) is Some) by {
            lemma_external(crates, num);
        }
        if can_lower(numbers, krate) {
            assert forall|num: int| 1 <= num <= crates.len() implies #[trigger] has_number(
                crates,
                num,
            ) by {
                assert(external_name(crates, num) is Some);
            }
        }
        if forall|num: int| 1 <= num <= crates.len() ==> #[trigger] has_number(crates, num) {
            assert forall|num: int| 1 <= num <= crates.len() implies #[trigger] external_name(
                crates,
                num,
            ) is Some by {
                assert(has_number(crates, num));
            }
        }
    }
}

/// Whether one of some crates has a number.
pub open spec fn has_number(crates: Seq<raw::ExternalCrateData>, num: int) -> bool {
    exists|i: int| 0 <= i < crates.len() && (#[trigger] crates[i]).num == num
}

/// A number goes with a name where some crate has it.
proof fn lemma_external(crates: Seq<raw::ExternalCrateData>, num: int)
    ensures
        external_name(crates, num) is Some <==> has_number(crates, num),
    decreases crates.len(),
{
    if crates.len() > 0 {
        let rest = crates.skip(1);
        lemma_external(rest, num);
        if crates[0].num == num {
            assert(has_number(crates, num));
        } else {
            if has_number(crates, num) {
                let i = choose|i: int| 0 <= i < crates.len() && (#[trigger] crates[i]).num == num;
                assert(rest[i - 1] == crates[i]);
            }
            if has_number(rest, num) {
                let i = choose|i: int| 0 <= i < rest.len() && (#[trigger] rest[i]).num == num;
                assert(crates[i + 1] == rest[i]);
            }
        }
    }
}

/// The name that goes with a number is that of the first crate with it.
proof fn lemma_external_at(crates: Seq<raw::ExternalCrateData>, num: int, i: int)
    requires
        0 <= i < crates.len(),
        crates[i].num == num,
        forall|j: int| 0 <= j < i ==> (#[trigger] crates[j]).num != num,
    ensures
        external_name(crates, num) == Some(crates[i].name@),
    decreases i,
{
    if i > 0 {
        let rest = crates.skip(1);
        assert(crates[0].num != num);
        assert(rest[i - 1] == crates[i]);
        assert forall|j: int| 0 <= j < i - 1 implies (#[trigger] rest[j]).num != num by {
            assert(rest[j] == crates[j + 1]);
        }
        lemma_external_at(rest, num, i - 1);
    }
}

/// In the data of a crate, zero stands for the crate itself and each number for the
/// first crate it depends on with that number; whoever it is has the number that its
/// name has in the project. The rest that lowering goes by is as it was given.
pub proof fn law_numbers_of_crates(
    numbers: Map<Seq<char>, u32>,
    krate: raw::Crate,
    base_dir: PathView,
    i: int,
)
    requires
        can_lower(numbers, krate),
    ensures
        reader_for(numbers, krate, base_dir).crate_map.len()
            == krate.analysis.prelude->0.external_crates@.len() + 1,
        reader_for(numbers, krate, base_dir).crate_map[0] == numbers_after(
            numbers,
            krate,
        )[krate.analysis.prelude->0.crate_name@],
        ({
            let crates = krate.analysis.prelude->0.external_crates@;
            0 <= i < crates.len() && 1 <= crates[i].num <= crates.len() && (forall|j: int|
                0 <= j < i ==> (#[trigger] crates[j]).num != crates[i].num) ==> reader_for(
                numbers,
                krate,
                base_dir,
            ).crate_map[crates[i].num as int] == numbers_after(numbers, krate)[crates[i].name@]
        }),
        reader_for(numbers, krate, base_dir).base_dir == base_dir,
        reader_for(numbers, krate, base_dir).crate_name
            == krate.analysis.prelude->0.crate_name@,
        reader_for(numbers, krate, base_dir).distro_crate == krate.analysis.distro_crate,
{
    let crates = krate.analysis.prelude->0.external_crates@;
    if 0 <= i < crates.len() && (forall|j: int|
        0 <= j < i ==> (#[trigger] crates[j]).num != crates[i].num) {
        lemma_external_at(crates, crates[i].num as int, i);
    }
}

/// Giving one more crate a number: one that has a number keeps it, a new one gets the
/// number of crates met so far, and no other number changes.
pub proof fn law_number_of_one_more(
    numbers: Map<Seq<char>, u32>,
    names: Seq<Seq<char>>,
    name: Seq<char>,
)
    ensures
        numbered_all(numbers, Seq::empty()) == numbers,
        numbered_all(numbers, names).contains_key(name) ==> numbered_all(numbers, names.push(name))
            == numbered_all(numbers, names),
        !numbered_all(numbers, names).contains_key(name) ==> numbered_all(numbers, names.push(name))
            == numbered_all(numbers, names).insert(
            name,
            numbered_all(numbers, names).len() as u32,
        ),
{
    assert(names.push(name).drop_last() =~= names);
}

/// After a crate was lowered it and all that it depends on have numbers.
pub proof fn law_numbered_crates(numbers: Map<Seq<char>, u32>, krate: raw::Crate, i: int)
    requires
        can_lower(numbers, krate),
    ensures
        numbers_after(numbers, krate).contains_key(krate.analysis.prelude->0.crate_name@),
        0 <= i < krate.analysis.prelude->0.external_crates@.len() && (forall|j: int|
            0 <= j < i ==> (#[trigger] krate.analysis.prelude->0.external_crates@[j]).num
                != krate.analysis.prelude->0.external_crates@[i].num) && 1
            <= krate.analysis.prelude->0.external_crates@[i].num
            <= krate.analysis.prelude->0.external_crates@.len() ==> numbers_after(
            numbers,
            krate,
        ).contains_key(krate.analysis.prelude->0.external_crates@[i].name@),
        forall|name: Seq<char>| #[trigger]
            numbers.contains_key(name) ==> numbers_after(numbers, krate).contains_key(name)
                && numbers_after(numbers, krate)[name] == numbers[name],
{
    let prelude = krate.analysis.prelude->0;
    let crates = prelude.external_crates@;
    let names = crate_names(prelude);
    lemma_numbered_has(numbers, names, 0);
    if 0 <= i < crates.len() && 1 <= crates[i].num <= crates.len() && (forall|j: int|
        0 <= j < i ==> (#[trigger] crates[j]).num != crates[i].num) {
        lemma_external_at(crates, crates[i].num as int, i);
        lemma_numbered_has(numbers, names, crates[i].num as int);
    }
    assert forall|name: Seq<char>| #[trigger] numbers.contains_key(name) implies numbers_after(
        numbers,
        krate,
    ).contains_key(name) && numbers_after(numbers, krate)[name] == numbers[name] by {
        lemma_number_kept(numbers, names, name);
    }
}

/// Whether a definition of a crate's data counts: it has a proper span and an id,
/// and no definition before it with a proper span has the same id.
pub open spec fn counts(reader: ReaderView, defs: Seq<raw::Def>, k: int) -> bool {
    &&& 0 <= k < defs.len()
    &&& proper(defs[k].span)
    &&& reader.id(defs[k].id) != Id(u64::MAX)
    &&& forall|j: int|
        0 <= j < k && proper((#[trigger] defs[j]).span) ==> reader.id(defs[j].id) != reader.id(
            defs[k].id,
        )
}

/// The parent of a definition of a crate's data.
pub open spec fn parent_of(reader: ReaderView, def: raw::Def) -> Option<Id> {
    if def.parent is Some && reader.id(def.parent->0) != Id(u64::MAX) {
        Some(reader.id(def.parent->0))
    } else {
        None
    }
}

/// Whether this is a definition of a crate's data, as the project has it.
pub open spec fn is_lowered(reader: ReaderView, def: raw::Def, d: DefView) -> bool {
    &&& d.kind == def.kind
    &&& d.name == def.name@
    &&& d.qualname == reader.crate_name + def.qualname@
    &&& d.value == def.value@
    &&& d.docs == def.docs@
    &&& d.distro_crate == reader.distro_crate
    &&& d.span == zero_based(def.span, reader.base_dir)
    &&& d.parent == parent_of(reader, def)
}

/// Whether an element stands before another in a list.
pub open spec fn stands_before<T>(list: Seq<T>, x: T, y: T) -> bool {
    exists|p: int, q: int|
        0 <= p < q < list.len() && #[trigger] list[p] == x && #[trigger] list[q] == y
}

/// A crate that nothing is known of but its name and the time of its data.
spec fn start(name: Seq<char>, timestamp: u128) -> CrateView {
    CrateView::blank(name, timestamp)
}

/// Whether a definition counts does not depend on those behind it.
proof fn lemma_counts_before(reader: ReaderView, defs: Seq<raw::Def>, k: int)
    requires
        0 <= k < defs.len() - 1,
    ensures
        counts(reader, defs.drop_last(), k) == counts(reader, defs, k),
{
    let before = defs.drop_last();
    if counts(reader, before, k) {
        assert forall|j: int|
            0 <= j < k && proper((#[trigger] defs[j]).span) implies reader.id(defs[j].id)
            != reader.id(defs[k].id) by {
            assert(before[j] == defs[j]);
        }
    }
    if counts(reader, defs, k) {
        assert forall|j: int|
            0 <= j < k && proper((#[trigger] before[j]).span) implies reader.id(before[j].id)
            != reader.id(before[k].id) by {
            assert(before[j] == defs[j]);
        }
    }
}

/// The definitions that are known are those that count.
#[verifier::spinoff_prover]
#[verifier::rlimit(40)]
proof fn lemma_known_defs(reader: ReaderView, name: Seq<char>, time: u128, defs: Seq<raw::Def>)
    ensures
        forall|k: int| #[trigger]
            counts(reader, defs, k) ==> {
                let c = reader.with_defs(start(name, time), defs);
                let id = reader.id(defs[k].id);
                c.defs.contains_key(id) && is_lowered(reader, defs[k], c.defs[id])
            },
        forall|id: Id| #[trigger]
            reader.with_defs(start(name, time), defs).defs.contains_key(id) ==> exists|k: int|
                #[trigger] counts(reader, defs, k) && reader.id(defs[k].id) == id,
        defs.len() > 0 ==> lowers_last(reader, name, time, defs),
    decreases defs.len(),
{
    let c = reader.with_defs(start(name, time), defs);
    if defs.len() > 0 {
        let n = defs.len() - 1;
        let before = defs.drop_last();
        let b = reader.with_defs(start(name, time), before);
        lemma_known_defs(reader, name, time, before);
        let id = reader.id(defs[n].id);
        if counts(reader, defs, n) {
            if b.defs.contains_key(id) {
                let k = choose|k: int| #[trigger]
                    counts(reader, before, k) && reader.id(before[k].id) == id;
                assert(before[k] == defs[k]);
            }
        } else if proper(defs[n].span) && id != Id(u64::MAX) {
            let j = choose|j: int|
                0 <= j < n && proper((#[trigger] defs[j]).span) && reader.id(defs[j].id)
                    == reader.id(defs[n].id);
            lemma_first_counts(reader, before, j);
            let k = choose|k: int| #[trigger]
                counts(reader, before, k) && reader.id(before[k].id) == reader.id(before[j].id);
            assert(b.defs.contains_key(reader.id(before[k].id)));
        }
        assert(lowers_last(reader, name, time, defs));
        assert forall|k: int| #[trigger] counts(reader, defs, k) implies c.defs.contains_key(
            reader.id(defs[k].id),
        ) && is_lowered(reader, defs[k], c.defs[reader.id(defs[k].id)]) by {
            if k < n {
                lemma_counts_before(reader, defs, k);
                assert(before[k] == defs[k]);
                assert(counts(reader, before, k));
            }
        }
        assert forall|x: Id| #[trigger] c.defs.contains_key(x) implies exists|k: int| #[trigger]
            counts(reader, defs, k) && reader.id(defs[k].id) == x by {
            if b.defs.contains_key(x) {
                let k = choose|k: int| #[trigger]
                    counts(reader, before, k) && reader.id(before[k].id) == x;
                lemma_counts_before(reader, defs, k);
                assert(before[k] == defs[k]);
                assert(counts(reader, defs, k));
            } else {
                assert(counts(reader, defs, n));
            }
        }
    }
}

/// Where some definition with a proper span has an id, one counts that has it.
proof fn lemma_first_counts(reader: ReaderView, defs: Seq<raw::Def>, j: int)
    requires
        0 <= j < defs.len(),
        proper(defs[j].span),
        reader.id(defs[j].id) != Id(u64::MAX),
    ensures
        exists|k: int| #[trigger]
            counts(reader, defs, k) && k <= j && reader.id(defs[k].id) == reader.id(defs[j].id),
    decreases j,
{
    if !counts(reader, defs, j) {
        let i = choose|i: int|
            0 <= i < j && proper((#[trigger] defs[i]).span) && reader.id(defs[i].id) == reader.id(
                defs[j].id,
            );
        lemma_first_counts(reader, defs, i);
    }
}

/// What the last definition adds: it is recorded under a new id where it counts, and
/// passed over where it does not.
spec fn lowers_last(reader: ReaderView, name: Seq<char>, time: u128, defs: Seq<raw::Def>) -> bool {
    let n = defs.len() - 1;
    let before = reader.with_defs(start(name, time), defs.drop_last());
    let after = reader.with_defs(start(name, time), defs);
    let id = reader.id(defs[n].id);
    let children = defs[n].children@.map_values(|c: raw::CompilerId| reader.id(c));
    if counts(reader, defs, n) {
        &&& !before.defs.contains_key(id)
        &&& exists|d: DefView|
            is_lowered(reader, defs[n], d) && after == #[trigger] before.with_def(id, d, children)
    } else {
        after == before
    }
}

/// The record that the last definition makes.
proof fn lemma_last_def(reader: ReaderView, name: Seq<char>, time: u128, defs: Seq<raw::Def>) -> (d:
    DefView)
    requires
        defs.len() > 0,
        counts(reader, defs, defs.len() - 1),
    ensures
        is_lowered(reader, defs.last(), d),
        !reader.with_defs(start(name, time), defs.drop_last()).defs.contains_key(
            reader.id(defs.last().id),
        ),
        reader.with_defs(start(name, time), defs) == reader.with_defs(
            start(name, time),
            defs.drop_last(),
        ).with_def(
            reader.id(defs.last().id),
            d,
            defs.last().children@.map_values(|c: raw::CompilerId| reader.id(c)),
        ),
{
    lemma_known_defs(reader, name, time, defs);
    let before = reader.with_defs(start(name, time), defs.drop_last());
    let after = reader.with_defs(start(name, time), defs);
    let id = reader.id(defs.last().id);
    let children = defs.last().children@.map_values(|c: raw::CompilerId| reader.id(c));
    let d = choose|d: DefView|
        is_lowered(reader, defs.last(), d) && after == #[trigger] before.with_def(id, d, children);
    law_record_def(before, id, d, children);
    d
}

/// A list that grew keeps what stands before what, and its new element stands behind
/// all others.
proof fn lemma_grown_order<K, V>(
    before: Map<K, Seq<V>>,
    after: Map<K, Seq<V>>,
    k: K,
    v: V,
    other: K,
    x: V,
    y: V,
)
    requires
        grew(before, after, k, v),
    ensures
        stands_before(list_of(before, other), x, y) ==> stands_before(list_of(after, other), x, y),
        listed(before, k, x) ==> stands_before(after[k], x, v),
{
    let old_list = list_of(before, other);
    if stands_before(old_list, x, y) {
        let (p, q) = choose|p: int, q: int|
            0 <= p < q < old_list.len() && #[trigger] old_list[p] == x && #[trigger] old_list[q]
                == y;
        if other == k {
            assert(after[k].drop_last()[p] == x && after[k].drop_last()[q] == y);
            assert(list_of(after, other)[p] == x && list_of(after, other)[q] == y);
        } else {
            assert(list_of(after, other)[p] == x && list_of(after, other)[q] == y);
        }
    }
    if listed(before, k, x) {
        let p = before[k].index_of(x);
        assert(after[k].drop_last()[p] == x);
        assert(after[k][p] == x && after[k][after[k].len() - 1] == v);
    }
}

/// A list that grew by something new holds nothing twice if it did not before.
proof fn lemma_grown_once<K, V>(before: Map<K, Seq<V>>, after: Map<K, Seq<V>>, k: K, v: V)
    requires
        grew(before, after, k, v),
        without_repetition(before),
        !listed(before, k, v),
    ensures
        without_repetition(after),
{
    assert forall|other: K| #[trigger] after.contains_key(other) implies after[other].no_duplicates() by {
        if other != k {
            assert(before.contains_key(other));
            assert(list_of(after, other) == list_of(before, other));
        } else {
            let rest = after[k].drop_last();
            assert forall|i: int, j: int|
                0 <= i < after[k].len() && 0 <= j < after[k].len() && i != j implies after[k][i]
                != after[k][j] by {
                if i < rest.len() && j < rest.len() {
                    assert(before.contains_key(k));
                    assert(rest[i] != rest[j]);
                } else {
                    let o = if i < rest.len() {
                        i
                    } else {
                        j
                    };
                    assert(before.contains_key(k));
                    assert(rest[o] == before[k][o]);
                    assert(before[k].contains(rest[o]));
                }
            }
        }
    }
}

/// Definitions are listed under their names and files in the order of the data, each
/// once.
#[verifier::spinoff_prover]
#[verifier::rlimit(40)]
proof fn lemma_defs_in_order(reader: ReaderView, name: Seq<char>, time: u128, defs: Seq<raw::Def>)
    ensures
        ({
            let c = reader.with_defs(start(name, time), defs);
            &&& without_repetition(c.def_names)
            &&& without_repetition(c.defs_per_file)
            &&& forall|j: int, k: int|
                #![trigger counts(reader, defs, j), counts(reader, defs, k)]
                j < k && counts(reader, defs, j) && counts(reader, defs, k) ==> {
                    &&& defs[j].name@ == defs[k].name@ ==> stands_before(
                        list_of(c.def_names, defs[k].name@),
                        reader.id(defs[j].id),
                        reader.id(defs[k].id),
                    )
                    &&& zero_based(defs[j].span, reader.base_dir).file.key() == zero_based(
                        defs[k].span,
                        reader.base_dir,
                    ).file.key() ==> stands_before(
                        list_of(
                            c.defs_per_file,
                            zero_based(defs[k].span, reader.base_dir).file.key(),
                        ),
                        reader.id(defs[j].id),
                        reader.id(defs[k].id),
                    )
                }
        }),
    decreases defs.len(),
{
    let c = reader.with_defs(start(name, time), defs);
    if defs.len() > 0 {
        let n = defs.len() - 1;
        let before = defs.drop_last();
        let b = reader.with_defs(start(name, time), before);
        lemma_defs_in_order(reader, name, time, before);
        lemma_known_defs(reader, name, time, defs);
        lemma_known_defs(reader, name, time, before);
        lemma_defs_consistent(reader, start(name, time), before);
        let last = reader.id(defs[n].id);
        if counts(reader, defs, n) {
            let d = lemma_last_def(reader, name, time, defs);
            let children = defs[n].children@.map_values(|c: raw::CompilerId| reader.id(c));
            law_record_def(b, last, d, children);
            lemma_grown_once(b.def_names, c.def_names, d.name, last);
            lemma_grown_once(b.defs_per_file, c.defs_per_file, d.span.file.key(), last);
        }
        assert forall|j: int, k: int|
            #![trigger counts(reader, defs, j), counts(reader, defs, k)]
            j < k && counts(reader, defs, j) && counts(reader, defs, k) implies {
            &&& defs[j].name@ == defs[k].name@ ==> stands_before(
                list_of(c.def_names, defs[k].name@),
                reader.id(defs[j].id),
                reader.id(defs[k].id),
            )
            &&& zero_based(defs[j].span, reader.base_dir).file.key() == zero_based(
                defs[k].span,
                reader.base_dir,
            ).file.key() ==> stands_before(
                list_of(c.defs_per_file, zero_based(defs[k].span, reader.base_dir).file.key()),
                reader.id(defs[j].id),
                reader.id(defs[k].id),
            )
        } by {
            lemma_counts_before(reader, defs, j);
            let x = reader.id(defs[j].id);
            let y = reader.id(defs[k].id);
            let file = zero_based(defs[k].span, reader.base_dir).file.key();
            assert(before[j] == defs[j]);
            assert(counts(reader, before, j));
            if k < n {
                lemma_counts_before(reader, defs, k);
                assert(before[k] == defs[k]);
                assert(counts(reader, before, k));
            } else {
                assert(b.defs.contains_key(x));
            }
            if counts(reader, defs, n) {
                let d = lemma_last_def(reader, name, time, defs);
                lemma_grown_order(b.def_names, c.def_names, d.name, last, defs[k].name@, x, y);
                lemma_grown_order(
                    b.defs_per_file,
                    c.defs_per_file,
                    d.span.file.key(),
                    last,
                    file,
                    x,
                    y,
                );
            }
        }
    }
}

/// The key of the span of a definition.
pub open spec fn span_key(reader: ReaderView, def: raw::Def) -> SpanKey {
    zero_based(def.span, reader.base_dir).key()
}

/// Whether a definition is the last one that counts with its span.
pub open spec fn last_there(reader: ReaderView, defs: Seq<raw::Def>, k: int) -> bool {
    &&& counts(reader, defs, k)
    &&& forall|j: int|
        k < j && #[trigger] counts(reader, defs, j) ==> span_key(reader, defs[j]) != span_key(
            reader,
            defs[k],
        )
}

proof fn lemma_last_there_before(reader: ReaderView, defs: Seq<raw::Def>, k: int)
    requires
        last_there(reader, defs, k),
        k < defs.len() - 1,
    ensures
        last_there(reader, defs.drop_last(), k),
{
    let before = defs.drop_last();
    lemma_counts_before(reader, defs, k);
    assert forall|j: int| k < j && #[trigger] counts(reader, before, j) implies span_key(
        reader,
        before[j],
    ) != span_key(reader, before[k]) by {
        lemma_counts_before(reader, defs, j);
        assert(counts(reader, defs, j));
    }
}

/// The span of a definition leads to the last one that counts with that span.
proof fn lemma_def_spans(reader: ReaderView, name: Seq<char>, time: u128, defs: Seq<raw::Def>)
    ensures
        ({
            let c = reader.with_defs(start(name, time), defs);
            &&& forall|k: int| #[trigger]
                last_there(reader, defs, k) ==> c.def_id_for_span.contains_key(
                    span_key(reader, defs[k]),
                ) && c.def_id_for_span[span_key(reader, defs[k])] == reader.id(defs[k].id)
            &&& forall|key: SpanKey| #[trigger]
                c.def_id_for_span.contains_key(key) ==> exists|k: int| #[trigger]
                    counts(reader, defs, k) && span_key(reader, defs[k]) == key
        }),
    decreases defs.len(),
{
    let c = reader.with_defs(start(name, time), defs);
    if defs.len() > 0 {
        let n = defs.len() - 1;
        let before = defs.drop_last();
        let b = reader.with_defs(start(name, time), before);
        lemma_def_spans(reader, name, time, before);
        lemma_known_defs(reader, name, time, defs);
        if counts(reader, defs, n) {
            let d = lemma_last_def(reader, name, time, defs);
            let children = defs[n].children@.map_values(|c: raw::CompilerId| reader.id(c));
            law_record_def(b, reader.id(defs[n].id), d, children);
        }
        assert forall|k: int| #[trigger] last_there(reader, defs, k) implies
            c.def_id_for_span.contains_key(span_key(reader, defs[k]))
            && c.def_id_for_span[span_key(reader, defs[k])] == reader.id(defs[k].id) by {
            if k < n {
                lemma_last_there_before(reader, defs, k);
            }
        }
        assert forall|key: SpanKey| #[trigger] c.def_id_for_span.contains_key(key) implies exists|
            k: int,
        | #[trigger] counts(reader, defs, k) && span_key(reader, defs[k]) == key by {
            if b.def_id_for_span.contains_key(key) {
                let k = choose|k: int| #[trigger]
                    counts(reader, before, k) && span_key(reader, before[k]) == key;
                lemma_counts_before(reader, defs, k);
                assert(counts(reader, defs, k));
            } else {
                assert(counts(reader, defs, n));
            }
        }
    }
}

/// Whether a definition of a crate's data makes another a child of a third: it names
/// it as its parent, or is named among its children.
pub open spec fn makes_child(reader: ReaderView, def: raw::Def, parent: Id, child: Id) -> bool {
    ||| parent_of(reader, def) == Some(parent) && reader.id(def.id) == child
    ||| reader.id(def.id) == parent && exists|i: int|
        0 <= i < def.children@.len() && reader.id(#[trigger] def.children@[i]) == child
}

/// The children are those that some definition that counts makes.
#[verifier::spinoff_prover]
#[verifier::rlimit(40)]
proof fn lemma_def_children(reader: ReaderView, name: Seq<char>, time: u128, defs: Seq<raw::Def>)
    ensures
        ({
            let c = reader.with_defs(start(name, time), defs);
            &&& without_repetition(c.children)
            &&& forall|p: Id, x: Id| #[trigger]
                listed(c.children, p, x) <==> exists|k: int| #[trigger]
                    counts(reader, defs, k) && makes_child(reader, defs[k], p, x)
        }),
    decreases defs.len(),
{
    let c = reader.with_defs(start(name, time), defs);
    if defs.len() > 0 {
        let n = defs.len() - 1;
        let before = defs.drop_last();
        let b = reader.with_defs(start(name, time), before);
        lemma_def_children(reader, name, time, before);
        lemma_known_defs(reader, name, time, defs);
        let children = defs[n].children@.map_values(|c: raw::CompilerId| reader.id(c));
        if counts(reader, defs, n) {
            let d = lemma_last_def(reader, name, time, defs);
            law_record_def(b, reader.id(defs[n].id), d, children);
        }
        assert forall|p: Id, x: Id| #[trigger] listed(c.children, p, x) <==> exists|k: int|
            #[trigger] counts(reader, defs, k) && makes_child(reader, defs[k], p, x) by {
            if children.contains(x) {
                let i = children.index_of(x);
                assert(reader.id(defs[n].children@[i]) == x);
            }
            if exists|i: int|
                0 <= i < defs[n].children@.len() && reader.id(#[trigger] defs[n].children@[i])
                    == x {
                let i = choose|i: int|
                    0 <= i < defs[n].children@.len() && reader.id(#[trigger] defs[n].children@[i])
                        == x;
                assert(children[i] == x);
            }
            if listed(c.children, p, x) {
                if listed(b.children, p, x) {
                    let k = choose|k: int| #[trigger]
                        counts(reader, before, k) && makes_child(reader, before[k], p, x);
                    lemma_counts_before(reader, defs, k);
                    assert(before[k] == defs[k]);
                    assert(counts(reader, defs, k));
                } else {
                    assert(counts(reader, defs, n));
                    assert(makes_child(reader, defs[n], p, x));
                }
            }
            if exists|k: int| #[trigger]
                counts(reader, defs, k) && makes_child(reader, defs[k], p, x) {
                let k = choose|k: int| #[trigger]
                    counts(reader, defs, k) && makes_child(reader, defs[k], p, x);
                if k < n {
                    lemma_counts_before(reader, defs, k);
                    assert(before[k] == defs[k]);
                    assert(counts(reader, before, k));
                    assert(listed(b.children, p, x));
                }
            }
        }
    }
}

/// Whether a definition of a crate's data is a module without a name.
pub open spec fn nameless_module(def: raw::Def) -> bool {
    def.kind == DefKind::Mod && def.name@ == Seq::<char>::empty()
}

/// Whether a definition is the first module without a name that counts.
pub open spec fn first_root(reader: ReaderView, defs: Seq<raw::Def>, k: int) -> bool {
    &&& counts(reader, defs, k)
    &&& nameless_module(defs[k])
    &&& forall|j: int| j < k && #[trigger] counts(reader, defs, j) ==> !nameless_module(defs[j])
}

proof fn lemma_first_root_before(reader: ReaderView, defs: Seq<raw::Def>, k: int)
    requires
        first_root(reader, defs, k),
        k < defs.len() - 1,
    ensures
        first_root(reader, defs.drop_last(), k),
{
    let before = defs.drop_last();
    lemma_counts_before(reader, defs, k);
    assert forall|j: int| j < k && #[trigger] counts(reader, before, j) implies !nameless_module(
        before[j],
    ) by {
        lemma_counts_before(reader, defs, j);
        assert(counts(reader, defs, j));
    }
}

/// The root is the first module without a name that counts.
proof fn lemma_def_root(reader: ReaderView, name: Seq<char>, time: u128, defs: Seq<raw::Def>)
    ensures
        ({
            let c = reader.with_defs(start(name, time), defs);
            &&& forall|k: int| #[trigger]
                first_root(reader, defs, k) ==> c.root_id == Some(reader.id(defs[k].id))
            &&& c.root_id is Some ==> exists|k: int| #[trigger] first_root(reader, defs, k)
        }),
    decreases defs.len(),
{
    let c = reader.with_defs(start(name, time), defs);
    if defs.len() > 0 {
        let n = defs.len() - 1;
        let before = defs.drop_last();
        let b = reader.with_defs(start(name, time), before);
        lemma_def_root(reader, name, time, before);
        lemma_known_defs(reader, name, time, defs);
        if counts(reader, defs, n) {
            let d = lemma_last_def(reader, name, time, defs);
            let children = defs[n].children@.map_values(|c: raw::CompilerId| reader.id(c));
            law_record_def(b, reader.id(defs[n].id), d, children);
        }
        if b.root_id is Some {
            let k = choose|k: int| #[trigger] first_root(reader, before, k);
            lemma_first_root_after(reader, defs, k);
        }
        assert forall|k: int| #[trigger] first_root(reader, defs, k) implies c.root_id == Some(
            reader.id(defs[k].id),
        ) by {
            if k < n {
                lemma_first_root_before(reader, defs, k);
            } else if b.root_id is Some {
                let j = choose|j: int| #[trigger] first_root(reader, before, j);
                lemma_counts_before(reader, defs, j);
                assert(counts(reader, defs, j));
            }
        }
        if c.root_id is Some && b.root_id is None {
            assert forall|j: int| j < n && #[trigger] counts(reader, defs, j) implies
                !nameless_module(defs[j]) by {
                if nameless_module(defs[j]) {
                    lemma_counts_before(reader, defs, j);
                    lemma_some_root(reader, before, j);
                }
            }
            assert(first_root(reader, defs, n));
        }
    }
}

proof fn lemma_first_root_after(reader: ReaderView, defs: Seq<raw::Def>, k: int)
    requires
        defs.len() > 0,
        first_root(reader, defs.drop_last(), k),
    ensures
        first_root(reader, defs, k),
{
    let before = defs.drop_last();
    lemma_counts_before(reader, defs, k);
    assert forall|j: int| j < k && #[trigger] counts(reader, defs, j) implies !nameless_module(
        defs[j],
    ) by {
        lemma_counts_before(reader, defs, j);
        assert(counts(reader, before, j));
    }
}

/// Where a module without a name counts, one is the first.
proof fn lemma_some_root(reader: ReaderView, defs: Seq<raw::Def>, j: int)
    requires
        counts(reader, defs, j),
        nameless_module(defs[j]),
    ensures
        exists|k: int| #[trigger] first_root(reader, defs, k),
    decreases j,
{
    if !first_root(reader, defs, j) {
        let i = choose|i: int| i < j && #[trigger] counts(reader, defs, i) && nameless_module(defs[i]);
        lemma_some_root(reader, defs, i);
    }
}

/// Recording definitions leaves the other tables of a crate as they are.
proof fn lemma_defs_leave(reader: ReaderView, name: Seq<char>, time: u128, defs: Seq<raw::Def>)
    ensures
        ({
            let c = reader.with_defs(start(name, time), defs);
            &&& c.ref_spans == start(name, time).ref_spans
            &&& c.globs == start(name, time).globs
            &&& c.impls == start(name, time).impls
            &&& c.name == name
            &&& c.timestamp == time
        }),
    decreases defs.len(),
{
    if defs.len() > 0 {
        lemma_defs_leave(reader, name, time, defs.drop_last());
    }
}

/// The uses of definitions in a crate's data: first the imports that have no value of
/// their own, then the references.
pub open spec fn uses(data: raw::Analysis) -> Seq<(raw::CompilerId, raw::SpanData)> {
    import_uses(data.imports@) + data.refs@.map_values(|r: raw::Ref| (r.ref_id, r.span))
}

/// The imports without a value, as uses.
pub open spec fn import_uses(imports: Seq<raw::Import>) -> Seq<(raw::CompilerId, raw::SpanData)> {
    imports.filter(|i: raw::Import| i.value@.len() == 0 && i.ref_id is Some).map_values(
        |i: raw::Import| (i.ref_id->0, i.span),
    )
}

/// Whether an id is that of a definition of a crate or of the project.
pub open spec fn is_known(c: CrateView, known: Option<AnalysisView>, id: Id) -> bool {
    id != Id(u64::MAX) && (c.defs.contains_key(id) || (known is Some && known->0.def(id) is Some))
}

/// A crate with some uses, one after the other.
spec fn with_uses(
    reader: ReaderView,
    c: CrateView,
    known: Option<AnalysisView>,
    list: Seq<(raw::CompilerId, raw::SpanData)>,
) -> CrateView
    decreases list.len(),
{
    if list.len() == 0 {
        c
    } else {
        reader.with_ref(
            with_uses(reader, c, known, list.drop_last()),
            known,
            list.last().0,
            list.last().1,
        )
    }
}

/// Uses and globs do not get in each other's way.
proof fn lemma_uses_beside_globs(
    reader: ReaderView,
    c: CrateView,
    globs: Map<SpanKey, Seq<char>>,
    known: Option<AnalysisView>,
    list: Seq<(raw::CompilerId, raw::SpanData)>,
)
    ensures
        with_uses(reader, CrateView { globs, ..c }, known, list) == (CrateView {
            globs,
            ..with_uses(reader, c, known, list)
        }),
        with_uses(reader, c, known, list).defs == c.defs,
    decreases list.len(),
{
    if list.len() > 0 {
        lemma_uses_beside_globs(reader, c, globs, known, list.drop_last());
    }
}

proof fn lemma_uses_in_two(
    reader: ReaderView,
    c: CrateView,
    known: Option<AnalysisView>,
    one: Seq<(raw::CompilerId, raw::SpanData)>,
    two: Seq<(raw::CompilerId, raw::SpanData)>,
)
    ensures
        with_uses(reader, with_uses(reader, c, known, one), known, two) == with_uses(
            reader,
            c,
            known,
            one + two,
        ),
    decreases two.len(),
{
    if two.len() > 0 {
        lemma_uses_in_two(reader, c, known, one, two.drop_last());
        assert((one + two).drop_last() =~= one + two.drop_last());
        assert((one + two).last() == two.last());
    } else {
        assert(one + two =~= one);
    }
}

/// Imports are uses and globs.
proof fn lemma_imports_as_uses(
    reader: ReaderView,
    c: CrateView,
    known: Option<AnalysisView>,
    imports: Seq<raw::Import>,
)
    ensures
        reader.with_imports(c, known, imports) == (CrateView {
            globs: reader.with_imports(c, known, imports).globs,
            ..with_uses(reader, c, known, import_uses(imports))
        }),
    decreases imports.len(),
{
    reveal(Seq::filter);
    let list = import_uses(imports);
    if imports.len() > 0 {
        let before = imports.drop_last();
        lemma_imports_as_uses(reader, c, known, before);
        let last = imports.last();
        if last.value@.len() == 0 && last.ref_id is Some {
            assert(list =~= import_uses(before).push((last.ref_id->0, last.span)));
            assert(list.drop_last() =~= import_uses(before));
        } else {
            assert(list =~= import_uses(before));
        }
    } else {
        assert(list =~= Seq::empty());
    }
}

proof fn lemma_refs_as_uses(
    reader: ReaderView,
    c: CrateView,
    known: Option<AnalysisView>,
    refs: Seq<raw::Ref>,
)
    ensures
        reader.with_refs(c, known, refs) == with_uses(
            reader,
            c,
            known,
            refs.map_values(|r: raw::Ref| (r.ref_id, r.span)),
        ),
    decreases refs.len(),
{
    let list = refs.map_values(|r: raw::Ref| (r.ref_id, r.span));
    if refs.len() > 0 {
        lemma_refs_as_uses(reader, c, known, refs.drop_last());
        assert(list.drop_last() =~= refs.drop_last().map_values(
            |r: raw::Ref| (r.ref_id, r.span),
        ));
    }
}

/// The spans of the uses of a definition, in order.
pub open spec fn uses_of(
    reader: ReaderView,
    list: Seq<(raw::CompilerId, raw::SpanData)>,
    id: Id,
) -> Seq<SpanView> {
    list.filter(
        |u: (raw::CompilerId, raw::SpanData)| proper(u.1) && reader.id(u.0) == id,
    ).map_values(|u: (raw::CompilerId, raw::SpanData)| zero_based(u.1, reader.base_dir))
}

/// Whether a use counts: it has a proper span and is one of a known definition.
pub open spec fn use_counts(
    reader: ReaderView,
    c: CrateView,
    known: Option<AnalysisView>,
    u: (raw::CompilerId, raw::SpanData),
) -> bool {
    proper(u.1) && is_known(c, known, reader.id(u.0))
}

/// The uses that count are listed for their definitions in order, and nothing else
/// is. A span that leads somewhere leads there still; any other leads to the
/// definition of the first use there that counts.
#[verifier::spinoff_prover]
#[verifier::rlimit(40)]
proof fn lemma_uses(
    reader: ReaderView,
    c: CrateView,
    known: Option<AnalysisView>,
    list: Seq<(raw::CompilerId, raw::SpanData)>,
)
    requires
        forall|id: Id| !#[trigger] c.ref_spans.contains_key(id),
    ensures
        ({
            let after = with_uses(reader, c, known, list);
            &&& after == (CrateView {
                ref_spans: after.ref_spans,
                def_id_for_span: after.def_id_for_span,
                ..c
            })
            &&& forall|id: Id| #[trigger]
                list_of(after.ref_spans, id) == (if is_known(c, known, id) {
                    uses_of(reader, list, id)
                } else {
                    Seq::empty()
                })
            &&& forall|id: Id| #[trigger] after.ref_spans.contains_key(id) ==> after.ref_spans[id].len() > 0
            &&& forall|key: SpanKey| #[trigger]
                c.def_id_for_span.contains_key(key) ==> after.def_id_for_span.contains_key(key)
                    && after.def_id_for_span[key] == c.def_id_for_span[key]
            &&& forall|k: int|
                0 <= k < list.len() && use_counts(reader, c, known, #[trigger] list[k])
                    && !c.def_id_for_span.contains_key(zero_based(list[k].1, reader.base_dir).key())
                    && (forall|j: int|
                    0 <= j < k && use_counts(reader, c, known, #[trigger] list[j]) ==> zero_based(
                        list[j].1,
                        reader.base_dir,
                    ).key() != zero_based(list[k].1, reader.base_dir).key()) ==> {
                    let key = zero_based(list[k].1, reader.base_dir).key();
                    after.def_id_for_span.contains_key(key) && after.def_id_for_span[key]
                        == reader.id(list[k].0)
                }
            &&& forall|key: SpanKey| #[trigger]
                after.def_id_for_span.contains_key(key) ==> c.def_id_for_span.contains_key(key)
                    || exists|k: int|
                    0 <= k < list.len() && use_counts(reader, c, known, #[trigger] list[k])
                        && zero_based(list[k].1, reader.base_dir).key() == key
        }),
    decreases list.len(),
{
    reveal(Seq::filter);
    let after = with_uses(reader, c, known, list);
    if list.len() == 0 {
        assert forall|id: Id| #[trigger] list_of(after.ref_spans, id) == (if is_known(
            c,
            known,
            id,
        ) {
            uses_of(reader, list, id)
        } else {
            Seq::empty()
        }) by {
            assert(!c.ref_spans.contains_key(id));
            assert(uses_of(reader, list, id) =~= Seq::empty());
        }
    } else {
        let before = list.drop_last();
        let n = list.len() - 1;
        let u = list[n];
        let b = with_uses(reader, c, known, before);
        lemma_uses(reader, c, known, before);
        let id = reader.id(u.0);
        let span = zero_based(u.1, reader.base_dir);
        if use_counts(reader, c, known, u) {
            assert(after == b.with_ref(id, span));
            law_record_ref(b, id, span);
        } else {
            assert(after == b);
        }
        assert forall|x: Id| #[trigger] list_of(after.ref_spans, x) == (if is_known(c, known, x) {
            uses_of(reader, list, x)
        } else {
            Seq::empty()
        }) by {
            assert(list_of(b.ref_spans, x) == (if is_known(c, known, x) {
                uses_of(reader, before, x)
            } else {
                Seq::empty()
            }));
            if proper(u.1) && id == x {
                assert(uses_of(reader, list, x) =~= uses_of(reader, before, x).push(span));
                if is_known(c, known, x) {
                    let grown = after.ref_spans[x];
                    assert(grown =~= grown.drop_last().push(grown.last()));
                }
            } else {
                assert(uses_of(reader, list, x) =~= uses_of(reader, before, x));
            }
        }
        assert forall|x: Id| #[trigger] after.ref_spans.contains_key(x) implies after.ref_spans[x].len()
            > 0 by {
            if x != id || !use_counts(reader, c, known, u) {
                assert(b.ref_spans.contains_key(x));
                assert(list_of(after.ref_spans, x) == list_of(b.ref_spans, x));
            }
        }
        assert forall|k: int|
            0 <= k < list.len() && use_counts(reader, c, known, #[trigger] list[k])
                && !c.def_id_for_span.contains_key(zero_based(list[k].1, reader.base_dir).key())
                && (forall|j: int|
                0 <= j < k && use_counts(reader, c, known, #[trigger] list[j]) ==> zero_based(
                    list[j].1,
                    reader.base_dir,
                ).key() != zero_based(list[k].1, reader.base_dir).key()) implies {
            let key = zero_based(list[k].1, reader.base_dir).key();
            after.def_id_for_span.contains_key(key) && after.def_id_for_span[key] == reader.id(
                list[k].0,
            )
        } by {
            let key = zero_based(list[k].1, reader.base_dir).key();
            if k < n {
                assert(before[k] == list[k]);
                assert forall|j: int|
                    0 <= j < k && use_counts(reader, c, known, #[trigger] before[j]) implies
                    zero_based(before[j].1, reader.base_dir).key() != key by {
                    assert(before[j] == list[j]);
                }
                assert(b.def_id_for_span.contains_key(key));
            } else if b.def_id_for_span.contains_key(key) {
                let j = choose|j: int|
                    0 <= j < before.len() && use_counts(reader, c, known, #[trigger] before[j])
                        && zero_based(before[j].1, reader.base_dir).key() == key;
                assert(before[j] == list[j]);
            }
        }
        assert forall|key: SpanKey| #[trigger] after.def_id_for_span.contains_key(key) implies
            c.def_id_for_span.contains_key(key) || exists|k: int|
            0 <= k < list.len() && use_counts(reader, c, known, #[trigger] list[k])
                && zero_based(list[k].1, reader.base_dir).key() == key by {
            if b.def_id_for_span.contains_key(key) {
                if !c.def_id_for_span.contains_key(key) {
                    let j = choose|j: int|
                        0 <= j < before.len() && use_counts(reader, c, known, #[trigger] before[j])
                            && zero_based(before[j].1, reader.base_dir).key() == key;
                    assert(before[j] == list[j]);
                }
            } else {
                assert(use_counts(reader, c, known, list[n]));
            }
        }
    }
}

/// Whether an import of a crate's data is a glob import that counts.
pub open spec fn glob_counts(import: raw::Import) -> bool {
    import.value@.len() > 0 && proper(import.span)
}

/// The value at a span is that of the last glob import there that counts.
#[verifier::spinoff_prover]
#[verifier::rlimit(40)]
proof fn lemma_globs(
    reader: ReaderView,
    c: CrateView,
    known: Option<AnalysisView>,
    imports: Seq<raw::Import>,
)
    requires
        forall|key: SpanKey| !#[trigger] c.globs.contains_key(key),
    ensures
        ({
            let globs = reader.with_imports(c, known, imports).globs;
            &&& forall|k: int|
                0 <= k < imports.len() && glob_counts(#[trigger] imports[k]) && (forall|j: int|
                    k < j < imports.len() && glob_counts(#[trigger] imports[j]) ==> zero_based(
                        imports[j].span,
                        reader.base_dir,
                    ).key() != zero_based(imports[k].span, reader.base_dir).key()) ==> {
                    let key = zero_based(imports[k].span, reader.base_dir).key();
                    globs.contains_key(key) && globs[key] == imports[k].value@
                }
            &&& forall|key: SpanKey| #[trigger]
                globs.contains_key(key) ==> exists|k: int|
                    0 <= k < imports.len() && glob_counts(#[trigger] imports[k]) && zero_based(
                        imports[k].span,
                        reader.base_dir,
                    ).key() == key
        }),
    decreases imports.len(),
{
    let globs = reader.with_imports(c, known, imports).globs;
    if imports.len() > 0 {
        let before = imports.drop_last();
        let n = imports.len() - 1;
        let b = reader.with_imports(c, known, before).globs;
        lemma_globs(reader, c, known, before);
        let last_key = zero_based(imports[n].span, reader.base_dir).key();
        assert(globs == (if glob_counts(imports[n]) {
            b.insert(last_key, imports[n].value@)
        } else {
            b
        }));
        assert forall|k: int|
            0 <= k < imports.len() && glob_counts(#[trigger] imports[k]) && (forall|j: int|
                k < j < imports.len() && glob_counts(#[trigger] imports[j]) ==> zero_based(
                    imports[j].span,
                    reader.base_dir,
                ).key() != zero_based(imports[k].span, reader.base_dir).key()) implies {
            let key = zero_based(imports[k].span, reader.base_dir).key();
            globs.contains_key(key) && globs[key] == imports[k].value@
        } by {
            if k < n {
                assert(before[k] == imports[k]);
                assert forall|j: int|
                    k < j < before.len() && glob_counts(#[trigger] before[j]) implies zero_based(
                    before[j].span,
                    reader.base_dir,
                ).key() != zero_based(before[k].span, reader.base_dir).key() by {
                    assert(before[j] == imports[j]);
                }
                assert(glob_counts(imports[n]) ==> last_key != zero_based(
                    imports[k].span,
                    reader.base_dir,
                ).key());
            }
        }
        assert forall|key: SpanKey| #[trigger] globs.contains_key(key) implies exists|k: int|
            0 <= k < imports.len() && glob_counts(#[trigger] imports[k]) && zero_based(
                imports[k].span,
                reader.base_dir,
            ).key() == key by {
            if b.contains_key(key) {
                let k = choose|k: int|
                    0 <= k < before.len() && glob_counts(#[trigger] before[k]) && zero_based(
                        before[k].span,
                        reader.base_dir,
                    ).key() == key;
                assert(before[k] == imports[k]);
            } else {
                assert(glob_counts(imports[n]));
            }
        }
    }
}

/// The two ends of each implementation in a crate's data, in order, each with the
/// span of the implementation.
pub open spec fn impl_ends(relations: Seq<raw::Relation>) -> Seq<
    (raw::CompilerId, raw::SpanData),
> {
    relations.filter(|r: raw::Relation| r.kind == raw::RelationKind::Impl).map_values(
        |r: raw::Relation| seq![(r.from, r.span), (r.to, r.span)],
    ).flatten()
}

/// The ends of implementations with a proper span are listed for their definitions,
/// where these are known, in order; and nothing else is.
#[verifier::spinoff_prover]
#[verifier::rlimit(40)]
proof fn lemma_impls(
    reader: ReaderView,
    c: CrateView,
    known: Option<AnalysisView>,
    relations: Seq<raw::Relation>,
)
    requires
        forall|id: Id| !#[trigger] c.impls.contains_key(id),
    ensures
        ({
            let after = reader.with_relations(c, known, relations);
            &&& after == (CrateView { impls: after.impls, ..c })
            &&& forall|id: Id| #[trigger]
                list_of(after.impls, id) == (if is_known(c, known, id) {
                    uses_of(reader, impl_ends(relations), id)
                } else {
                    Seq::empty()
                })
        }),
    decreases relations.len(),
{
    reveal(Seq::filter);
    let after = reader.with_relations(c, known, relations);
    let ends = impl_ends(relations);
    let both = |r: raw::Relation| seq![(r.from, r.span), (r.to, r.span)];
    let is_impl = |r: raw::Relation| r.kind == raw::RelationKind::Impl;
    if relations.len() == 0 {
        assert(ends =~= Seq::empty());
        assert forall|id: Id| #[trigger] list_of(after.impls, id) == (if is_known(c, known, id) {
            uses_of(reader, ends, id)
        } else {
            Seq::empty()
        }) by {
            assert(!c.impls.contains_key(id));
            assert(uses_of(reader, ends, id) =~= Seq::empty());
        }
    } else {
        let before = relations.drop_last();
        let last = relations.last();
        let b = reader.with_relations(c, known, before);
        let old_ends = impl_ends(before);
        lemma_impls(reader, c, known, before);
        if is_impl(last) {
            let lists = before.filter(is_impl).map_values(both);
            assert(relations.filter(is_impl).map_values(both) =~= lists.push(both(last)));
            lists.lemma_flatten_push(both(last));
            assert(ends =~= old_ends.push((last.from, last.span)).push((last.to, last.span)));
            let from = reader.id(last.from);
            let to = reader.id(last.to);
            let span = zero_based(last.span, reader.base_dir);
            let mid = if proper(last.span) && is_known(c, known, from) {
                b.with_impl(from, span)
            } else {
                b
            };
            law_record_impl(b, from, span, from, span);
            law_record_impl(mid, to, span, to, span);
            assert(after == (if proper(last.span) && is_known(c, known, to) {
                mid.with_impl(to, span)
            } else {
                mid
            }));
            assert forall|id: Id| #[trigger] list_of(after.impls, id) == (if is_known(
                c,
                known,
                id,
            ) {
                uses_of(reader, ends, id)
            } else {
                Seq::empty()
            }) by {
                let half = old_ends.push((last.from, last.span));
                lemma_use_pushed(reader, old_ends, (last.from, last.span), id);
                lemma_use_pushed(reader, half, (last.to, last.span), id);
                assert(list_of(b.impls, id) == (if is_known(c, known, id) {
                    uses_of(reader, old_ends, id)
                } else {
                    Seq::empty()
                }));
                if proper(last.span) && is_known(c, known, from) && from == id {
                    let grown = mid.impls[id];
                    assert(grown =~= grown.drop_last().push(grown.last()));
                } else {
                    assert(list_of(mid.impls, id) == list_of(b.impls, id));
                }
                if proper(last.span) && is_known(c, known, to) && to == id {
                    let grown = after.impls[id];
                    assert(grown =~= grown.drop_last().push(grown.last()));
                } else {
                    assert(list_of(after.impls, id) == list_of(mid.impls, id));
                }
            }
        } else {
            assert(relations.filter(is_impl) =~= before.filter(is_impl));
            assert(after == b);
            assert forall|id: Id| #[trigger] list_of(after.impls, id) == (if is_known(
                c,
                known,
                id,
            ) {
                uses_of(reader, ends, id)
            } else {
                Seq::empty()
            }) by {
                assert(list_of(b.impls, id) == (if is_known(c, known, id) {
                    uses_of(reader, old_ends, id)
                } else {
                    Seq::empty()
                }));
            }
        }
    }
}

proof fn lemma_use_pushed(
    reader: ReaderView,
    list: Seq<(raw::CompilerId, raw::SpanData)>,
    u: (raw::CompilerId, raw::SpanData),
    id: Id,
)
    ensures
        uses_of(reader, list.push(u), id) == (if proper(u.1) && reader.id(u.0) == id {
            uses_of(reader, list, id).push(zero_based(u.1, reader.base_dir))
        } else {
            uses_of(reader, list, id)
        }),
{
    reveal(Seq::filter);
    assert(list.push(u).drop_last() =~= list);
    let after = uses_of(reader, list.push(u), id);
    if proper(u.1) && reader.id(u.0) == id {
        assert(after =~= uses_of(reader, list, id).push(zero_based(u.1, reader.base_dir)));
    } else {
        assert(after =~= uses_of(reader, list, id));
    }
}

/// What a lowered crate is made of.
proof fn lemma_lowered(
    numbers: Map<Seq<char>, u32>,
    known: Option<AnalysisView>,
    krate: raw::Crate,
    base_dir: PathView,
) -> (c: CrateView)
    ensures
        ({
            let reader = reader_for(numbers, krate, base_dir);
            let after = lowered_crate(numbers, known, krate, base_dir);
            let name = krate.analysis.prelude->0.crate_name@;
            &&& c == reader.with_defs(start(name, krate.timestamp), krate.analysis.defs@)
            &&& after == (CrateView {
                globs: reader.with_imports(c, known, krate.analysis.imports@).globs,
                impls: after.impls,
                ..with_uses(reader, c, known, uses(krate.analysis))
            })
            &&& after.defs == c.defs
            &&& forall|id: Id| #[trigger]
                list_of(after.impls, id) == (if is_known(c, known, id) {
                    uses_of(reader, impl_ends(krate.analysis.relations@), id)
                } else {
                    Seq::empty()
                })
            &&& forall|id: Id| !#[trigger] c.ref_spans.contains_key(id)
            &&& forall|key: SpanKey| !#[trigger] c.globs.contains_key(key)
        }),
{
    let reader = reader_for(numbers, krate, base_dir);
    let name = krate.analysis.prelude->0.crate_name@;
    let data = krate.analysis;
    let c = reader.with_defs(start(name, krate.timestamp), data.defs@);
    lemma_defs_leave(reader, name, krate.timestamp, data.defs@);
    let i = reader.with_imports(c, known, data.imports@);
    lemma_imports_as_uses(reader, c, known, data.imports@);
    let r = reader.with_refs(i, known, data.refs@);
    lemma_refs_as_uses(reader, i, known, data.refs@);
    let ref_uses = data.refs@.map_values(|r: raw::Ref| (r.ref_id, r.span));
    let u = with_uses(reader, c, known, import_uses(data.imports@));
    lemma_uses_beside_globs(reader, u, i.globs, known, ref_uses);
    lemma_uses_in_two(reader, c, known, import_uses(data.imports@), ref_uses);
    lemma_uses(reader, c, known, uses(data));
    assert(r == (CrateView { globs: i.globs, ..with_uses(reader, c, known, uses(data)) }));
    lemma_impls(reader, r, known, data.relations@);
    assert forall|id: Id| #[trigger] list_of(
        lowered_crate(numbers, known, krate, base_dir).impls,
        id,
    ) == (if is_known(c, known, id) {
        uses_of(reader, impl_ends(data.relations@), id)
    } else {
        Seq::empty()
    }) by {
        assert(is_known(r, known, id) == is_known(c, known, id));
    }
    c
}

/// Lowering keeps every definition that counts, with its name, kind, span, value,
/// documentation and parent, and makes up none.
pub proof fn law_definitions_lowered(
    numbers: Map<Seq<char>, u32>,
    known: Option<AnalysisView>,
    krate: raw::Crate,
    base_dir: PathView,
)
    ensures
        forall|k: int| #[trigger]
            counts(reader_for(numbers, krate, base_dir), krate.analysis.defs@, k) ==> {
                let reader = reader_for(numbers, krate, base_dir);
                let def = krate.analysis.defs@[k];
                let c = lowered_crate(numbers, known, krate, base_dir);
                &&& c.defs.contains_key(reader.id(def.id))
                &&& is_lowered(reader, def, c.defs[reader.id(def.id)])
            },
        forall|id: Id| #[trigger]
            lowered_crate(numbers, known, krate, base_dir).defs.contains_key(id) ==> exists|k: int|
                #[trigger] counts(
                    reader_for(numbers, krate, base_dir),
                    krate.analysis.defs@,
                    k,
                ) && reader_for(numbers, krate, base_dir).id(krate.analysis.defs@[k].id) == id,
        lowered_crate(numbers, known, krate, base_dir).name
            == krate.analysis.prelude->0.crate_name@,
        lowered_crate(numbers, known, krate, base_dir).timestamp == krate.timestamp,
{
    let reader = reader_for(numbers, krate, base_dir);
    let name = krate.analysis.prelude->0.crate_name@;
    let c = lemma_lowered(numbers, known, krate, base_dir);
    lemma_known_defs(reader, name, krate.timestamp, krate.analysis.defs@);
    lemma_defs_leave(reader, name, krate.timestamp, krate.analysis.defs@);
    lemma_uses(reader, c, known, uses(krate.analysis));
}

/// The definitions that count are listed under their names and under their files, each
/// once and in the order of the data; nothing else is listed.
#[verifier::spinoff_prover]
pub proof fn law_definitions_listed(
    numbers: Map<Seq<char>, u32>,
    known: Option<AnalysisView>,
    krate: raw::Crate,
    base_dir: PathView,
)
    ensures
        ({
            let reader = reader_for(numbers, krate, base_dir);
            let defs = krate.analysis.defs@;
            let c = lowered_crate(numbers, known, krate, base_dir);
            &&& without_repetition(c.def_names)
            &&& without_repetition(c.defs_per_file)
            &&& forall|name: Seq<char>, id: Id| #[trigger]
                listed(c.def_names, name, id) <==> exists|k: int| #[trigger]
                    counts(reader, defs, k) && reader.id(defs[k].id) == id && defs[k].name@ == name
            &&& forall|file: PathKey, id: Id| #[trigger]
                listed(c.defs_per_file, file, id) <==> exists|k: int| #[trigger]
                    counts(reader, defs, k) && reader.id(defs[k].id) == id && zero_based(
                        defs[k].span,
                        base_dir,
                    ).file.key() == file
            &&& forall|j: int, k: int|
                #![trigger counts(reader, defs, j), counts(reader, defs, k)]
                j < k && counts(reader, defs, j) && counts(reader, defs, k) ==> {
                    &&& defs[j].name@ == defs[k].name@ ==> stands_before(
                        list_of(c.def_names, defs[k].name@),
                        reader.id(defs[j].id),
                        reader.id(defs[k].id),
                    )
                    &&& zero_based(defs[j].span, base_dir).file.key() == zero_based(
                        defs[k].span,
                        base_dir,
                    ).file.key() ==> stands_before(
                        list_of(c.defs_per_file, zero_based(defs[k].span, base_dir).file.key()),
                        reader.id(defs[j].id),
                        reader.id(defs[k].id),
                    )
                }
        }),
{
    let reader = reader_for(numbers, krate, base_dir);
    let name = krate.analysis.prelude->0.crate_name@;
    let defs = krate.analysis.defs@;
    let after = lowered_crate(numbers, known, krate, base_dir);
    let c = lemma_lowered(numbers, known, krate, base_dir);
    lemma_uses(reader, c, known, uses(krate.analysis));
    lemma_defs_in_order(reader, name, krate.timestamp, defs);
    law_definitions_lowered(numbers, known, krate, base_dir);
    law_lowered_crate_consistent(numbers, known, krate, base_dir);
    assert forall|name: Seq<char>, id: Id| #[trigger] listed(after.def_names, name, id)
        <==> exists|k: int| #[trigger]
        counts(reader, defs, k) && reader.id(defs[k].id) == id && defs[k].name@ == name by {
        if listed(after.def_names, name, id) {
            assert(after.defs.contains_key(id));
            let k = choose|k: int| #[trigger]
                counts(reader, defs, k) && reader.id(defs[k].id) == id;
            assert(is_lowered(reader, defs[k], after.defs[id]));
        }
        if exists|k: int| #[trigger]
            counts(reader, defs, k) && reader.id(defs[k].id) == id && defs[k].name@ == name {
            assert(after.defs.contains_key(id));
        }
    }
    assert forall|file: PathKey, id: Id| #[trigger] listed(after.defs_per_file, file, id)
        <==> exists|k: int| #[trigger]
        counts(reader, defs, k) && reader.id(defs[k].id) == id && zero_based(
            defs[k].span,
            base_dir,
        ).file.key() == file by {
        if listed(after.defs_per_file, file, id) {
            assert(after.defs.contains_key(id));
            let k = choose|k: int| #[trigger]
                counts(reader, defs, k) && reader.id(defs[k].id) == id;
            assert(is_lowered(reader, defs[k], after.defs[id]));
        }
        if exists|k: int| #[trigger]
            counts(reader, defs, k) && reader.id(defs[k].id) == id && zero_based(
                defs[k].span,
                base_dir,
            ).file.key() == file {
            assert(after.defs.contains_key(id));
        }
    }
}

/// One definition is a child of another exactly where one that counts makes it so: by
/// naming its parent or by naming its children. No child is listed twice.
pub proof fn law_children_lowered(
    numbers: Map<Seq<char>, u32>,
    known: Option<AnalysisView>,
    krate: raw::Crate,
    base_dir: PathView,
)
    ensures
        without_repetition(lowered_crate(numbers, known, krate, base_dir).children),
        forall|p: Id, x: Id| #[trigger]
            listed(lowered_crate(numbers, known, krate, base_dir).children, p, x) <==> exists|k: int|
                #[trigger] counts(reader_for(numbers, krate, base_dir), krate.analysis.defs@, k)
                    && makes_child(
                    reader_for(numbers, krate, base_dir),
                    krate.analysis.defs@[k],
                    p,
                    x,
                ),
{
    let reader = reader_for(numbers, krate, base_dir);
    let c = lemma_lowered(numbers, known, krate, base_dir);
    lemma_uses(reader, c, known, uses(krate.analysis));
    lemma_def_children(
        reader,
        krate.analysis.prelude->0.crate_name@,
        krate.timestamp,
        krate.analysis.defs@,
    );
}

/// The root of a crate is the first module without a name that counts; there is none
/// only where there is no such module.
pub proof fn law_root_lowered(
    numbers: Map<Seq<char>, u32>,
    known: Option<AnalysisView>,
    krate: raw::Crate,
    base_dir: PathView,
)
    ensures
        ({
            let reader = reader_for(numbers, krate, base_dir);
            let defs = krate.analysis.defs@;
            let c = lowered_crate(numbers, known, krate, base_dir);
            &&& forall|k: int| #[trigger]
                first_root(reader, defs, k) ==> c.root_id == Some(reader.id(defs[k].id))
            &&& c.root_id is Some ==> exists|k: int| #[trigger] first_root(reader, defs, k)
        }),
{
    let reader = reader_for(numbers, krate, base_dir);
    let c = lemma_lowered(numbers, known, krate, base_dir);
    lemma_uses(reader, c, known, uses(krate.analysis));
    lemma_def_root(
        reader,
        krate.analysis.prelude->0.crate_name@,
        krate.timestamp,
        krate.analysis.defs@,
    );
}

/// The references to a known definition are its uses in the data, imports first and
/// else in the order of the data; there are none to any other.
pub proof fn law_references_lowered(
    numbers: Map<Seq<char>, u32>,
    known: Option<AnalysisView>,
    krate: raw::Crate,
    base_dir: PathView,
    id: Id,
)
    ensures
        ({
            let reader = reader_for(numbers, krate, base_dir);
            let c = lowered_crate(numbers, known, krate, base_dir);
            &&& is_known(c, known, id) ==> list_of(c.ref_spans, id) == uses_of(
                reader,
                uses(krate.analysis),
                id,
            )
            &&& !is_known(c, known, id) ==> !c.ref_spans.contains_key(id)
            &&& c.ref_spans.contains_key(id) ==> c.ref_spans[id].len() > 0
        }),
{
    let reader = reader_for(numbers, krate, base_dir);
    let c = lemma_lowered(numbers, known, krate, base_dir);
    lemma_uses(reader, c, known, uses(krate.analysis));
    let after = lowered_crate(numbers, known, krate, base_dir);
    assert(is_known(after, known, id) == is_known(c, known, id));
    let u = with_uses(reader, c, known, uses(krate.analysis));
    assert(list_of(u.ref_spans, id) == list_of(after.ref_spans, id));
}

/// A span leads to the last definition that counts and has it; else to the
/// definition of the first use there that counts; else nowhere.
#[verifier::spinoff_prover]
pub proof fn law_spans_lowered(
    numbers: Map<Seq<char>, u32>,
    known: Option<AnalysisView>,
    krate: raw::Crate,
    base_dir: PathView,
    key: SpanKey,
    k: int,
)
    ensures
        ({
            let reader = reader_for(numbers, krate, base_dir);
            let defs = krate.analysis.defs@;
            let list = uses(krate.analysis);
            let c = lowered_crate(numbers, known, krate, base_dir);
            &&& last_there(reader, defs, k) && span_key(reader, defs[k]) == key ==> c.def_id_for_span.contains_key(key) && c.def_id_for_span[key]
                == reader.id(defs[k].id)
            &&& 0 <= k < list.len() && use_counts(reader, c, known, list[k]) && zero_based(
                list[k].1,
                base_dir,
            ).key() == key && (forall|j: int| #[trigger]
                counts(reader, defs, j) ==> zero_based(defs[j].span, base_dir).key() != key) && (
            forall|j: int|
                0 <= j < k && use_counts(reader, c, known, #[trigger] list[j]) ==> zero_based(
                    list[j].1,
                    base_dir,
                ).key() != key) ==> c.def_id_for_span.contains_key(key) && c.def_id_for_span[key]
                == reader.id(list[k].0)
            &&& c.def_id_for_span.contains_key(key) ==> (exists|j: int| #[trigger]
                counts(reader, defs, j) && zero_based(defs[j].span, base_dir).key() == key) || (
            exists|j: int|
                0 <= j < list.len() && use_counts(reader, c, known, #[trigger] list[j])
                    && zero_based(list[j].1, base_dir).key() == key)
        }),
{
    let reader = reader_for(numbers, krate, base_dir);
    let defs = krate.analysis.defs@;
    let list = uses(krate.analysis);
    let after = lowered_crate(numbers, known, krate, base_dir);
    let c = lemma_lowered(numbers, known, krate, base_dir);
    lemma_uses(reader, c, known, list);
    lemma_def_spans(
        reader,
        krate.analysis.prelude->0.crate_name@,
        krate.timestamp,
        krate.analysis.defs@,
    );
    assert forall|j: int| 0 <= j < list.len() implies use_counts(
        reader,
        after,
        known,
        #[trigger] list[j],
    ) == use_counts(reader, c, known, list[j]) by {}
    if last_there(reader, defs, k) && span_key(reader, defs[k]) == key {
        assert(c.def_id_for_span.contains_key(key));
    }
    if c.def_id_for_span.contains_key(key) {
        let j = choose|j: int| #[trigger]
            counts(reader, defs, j) && span_key(reader, defs[j]) == key;
        assert(zero_based(defs[j].span, base_dir).key() == key);
    }
}

/// At a span stands the value of the last glob import there that counts; where there
/// is no such import there is none.
pub proof fn law_globs_lowered(
    numbers: Map<Seq<char>, u32>,
    known: Option<AnalysisView>,
    krate: raw::Crate,
    base_dir: PathView,
)
    ensures
        ({
            let imports = krate.analysis.imports@;
            let globs = lowered_crate(numbers, known, krate, base_dir).globs;
            &&& forall|k: int|
                0 <= k < imports.len() && glob_counts(#[trigger] imports[k]) && (forall|j: int|
                    k < j < imports.len() && glob_counts(#[trigger] imports[j]) ==> zero_based(
                        imports[j].span,
                        base_dir,
                    ).key() != zero_based(imports[k].span, base_dir).key()) ==> {
                    let key = zero_based(imports[k].span, base_dir).key();
                    globs.contains_key(key) && globs[key] == imports[k].value@
                }
            &&& forall|key: SpanKey| #[trigger]
                globs.contains_key(key) ==> exists|k: int|
                    0 <= k < imports.len() && glob_counts(#[trigger] imports[k]) && zero_based(
                        imports[k].span,
                        base_dir,
                    ).key() == key
        }),
{
    let reader = reader_for(numbers, krate, base_dir);
    let c = lemma_lowered(numbers, known, krate, base_dir);
    lemma_globs(reader, c, known, krate.analysis.imports@);
}

/// The implementations of a known definition are those in the data that it is an end
/// of and that have a proper span, in order; there are none of any other.
pub proof fn law_impls_lowered(
    numbers: Map<Seq<char>, u32>,
    known: Option<AnalysisView>,
    krate: raw::Crate,
    base_dir: PathView,
    id: Id,
)
    ensures
        ({
            let reader = reader_for(numbers, krate, base_dir);
            let c = lowered_crate(numbers, known, krate, base_dir);
            &&& is_known(c, known, id) ==> list_of(c.impls, id) == uses_of(
                reader,
                impl_ends(krate.analysis.relations@),
                id,
            )
            &&& !is_known(c, known, id) ==> list_of(c.impls, id).len() == 0
        }),
{
    let c = lemma_lowered(numbers, known, krate, base_dir);
    let after = lowered_crate(numbers, known, krate, base_dir);
    assert(is_known(after, known, id) == is_known(c, known, id));
}

} // verus!
