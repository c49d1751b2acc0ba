//! What the queries of a host answer, call by call, and how the answers to different
//! calls fit together.
use vstd::prelude::*;

use crate::analysis::{answers, answers_for, AnalysisView, SymbolResult};
use crate::basics::{outcome, AError, AResult, Id};
use crate::host::{hard_reloaded, then_imported, updated, AnalysisHost, HostView};
use crate::loader::{AnalysisLoader, CargoAnalysisLoader};
use crate::path::{FilePath, PathView};
use crate::path_laws::law_files_to_read;
use crate::per_crate::{Def, DefView};
use crate::raw;
use crate::raw::{name_space_for_def_kind, DefKind};
use crate::reading::{files_to_read, wanted};
use crate::span::{Span, SpanView};
use crate::web_laws::{law_decimal, number};

verus! {

/// Whether a result is what a host that can be asked answers: the answer, or that there
/// is none.
pub open spec fn tells<T: DeepView>(r: AResult<T>, answer: Option<T::V>) -> bool {
    match answer {
        Some(t) => r is Ok && r->Ok_0.deep_view() == t,
        None => r == Err::<T, AError>(AError::Unclassified),
    }
}

/// Whether a result is what a host answers: that its lock is poisoned, that nothing is
/// loaded, or what is known.
pub open spec fn tells_of<T: DeepView>(
    h: HostView,
    r: AResult<T>,
    answer: spec_fn(AnalysisView) -> Option<T::V>,
) -> bool {
    if h.analysis_poisoned {
        r == Err::<T, AError>(AError::MutexPoison)
    } else if h.analysis is None {
        r == Err::<T, AError>(AError::Unclassified)
    } else {
        tells(r, answer(h.analysis->0))
    }
}

/// A definition is known exactly where it can be got.
pub proof fn law_has_def_is_get_def<L>(h: &AnalysisHost<L>, id: Id, b: bool, r: AResult<Def>)
    requires
        call_ensures(AnalysisHost::<L>::has_def, (h, id), b),
        call_ensures(AnalysisHost::<L>::get_def, (h, id), r),
    ensures
        tells_of(h@, r, |a: AnalysisView| a.def(id)),
        h@.analysis is Some || h@.analysis_poisoned ==> b == (r is Ok),
{
}

/// What is asked of a span is asked of the definition that the span leads to: the place
/// to go to, the documentation and, unless it is a glob import, the type.
pub proof fn law_asked_of_a_span<L>(
    h: &AnalysisHost<L>,
    span: &Span,
    id: AResult<Id>,
    def: AResult<Def>,
    to: AResult<Span>,
    docs: AResult<String>,
    value: AResult<String>,
)
    requires
        call_ensures(AnalysisHost::<L>::id, (h, span), id),
        id matches Ok(i) ==> call_ensures(AnalysisHost::<L>::get_def, (h, i), def),
        call_ensures(AnalysisHost::<L>::goto_def, (h, span), to),
        call_ensures(AnalysisHost::<L>::docs, (h, span), docs),
        call_ensures(AnalysisHost::<L>::show_type, (h, span), value),
    ensures
        tells_of(h@, id, |a: AnalysisView| a.id_at(span@)),
        id is Ok && def is Ok ==> {
            &&& to is Ok && to->Ok_0@ == def->Ok_0@.span
            &&& docs is Ok && docs->Ok_0@ == def->Ok_0@.docs
            &&& value is Ok && value->Ok_0@ == def->Ok_0@.value
        },
        id is Err || def is Err ==> {
            &&& to is Err
            &&& docs is Err
            &&& h@.known() is Some ==> tells(value, h@.known()->0.glob(span@))
        },
        h@.analysis_poisoned ==> to == Err::<Span, AError>(AError::MutexPoison) && docs == Err::<
            String,
            AError,
        >(AError::MutexPoison) && value == Err::<String, AError>(AError::MutexPoison),
{
}

/// The id in the crate of a span is the id there of a definition that is known.
pub proof fn law_asked_of_its_crate<L>(h: &AnalysisHost<L>, span: &Span, r: AResult<Id>)
    requires
        call_ensures(AnalysisHost::<L>::crate_local_id, (h, span), r),
    ensures
        tells_of(h@, r, |a: AnalysisView| a.local_id_at(span@)),
{
}

/// References are found at a span as by the id there, behind the span of the definition
/// if that is asked for; by an id always so.
pub proof fn law_asked_for_references<L>(
    h: &AnalysisHost<L>,
    span: &Span,
    id: AResult<Id>,
    both: AResult<Vec<Span>>,
    alone: AResult<Vec<Span>>,
    by_id: AResult<Vec<Span>>,
)
    requires
        call_ensures(AnalysisHost::<L>::id, (h, span), id),
        call_ensures(AnalysisHost::<L>::find_all_refs, (h, span, true), both),
        call_ensures(AnalysisHost::<L>::find_all_refs, (h, span, false), alone),
        id matches Ok(i) ==> call_ensures(AnalysisHost::<L>::find_all_refs_by_id, (h, i), by_id),
    ensures
        id is Err ==> both is Err && alone is Err,
        id matches Ok(i) ==> {
            let a = h@.analysis->0;
            &&& alone is Ok
            &&& alone->Ok_0.deep_view() == (match a.refs(i) {
                Some(refs) => refs,
                None => Seq::<SpanView>::empty(),
            })
            &&& both is Ok <==> by_id is Ok
            &&& both is Ok ==> both->Ok_0.deep_view() == by_id->Ok_0.deep_view()
            &&& by_id is Ok <==> a.def(i) is Some || a.refs(i) is Some
            &&& a.def(i) matches Some(d) ==> by_id->Ok_0.deep_view() == seq![d.span]
                + alone->Ok_0.deep_view()
            &&& by_id is Ok && a.def(i) is None ==> by_id->Ok_0.deep_view()
                == alone->Ok_0.deep_view()
        },
{
    if let Ok(i) = id {
        let a = h@.analysis->0;
        if let Some(d) = a.def(i) {
            assert(by_id->Ok_0.deep_view() =~= seq![d.span] + alone->Ok_0.deep_view());
        } else if by_id is Ok {
            assert(by_id->Ok_0.deep_view() =~= alone->Ok_0.deep_view());
        }
    }
}

/// By an id, what is found is the definition and then the references.
pub proof fn law_asked_by_id<L>(h: &AnalysisHost<L>, id: Id, r: AResult<Vec<Span>>)
    requires
        call_ensures(AnalysisHost::<L>::find_all_refs_by_id, (h, id), r),
    ensures
        tells_of(h@, r, |a: AnalysisView| a.def_and_refs(id)),
{
}

/// What is asked of a name: the ids with it, their definitions, and for each id what is
/// found by it.
pub proof fn law_asked_of_a_name<L>(
    h: &AnalysisHost<L>,
    name: &str,
    ids: AResult<Vec<Id>>,
    defs: AResult<Vec<Def>>,
    spans: AResult<Vec<Span>>,
)
    requires
        call_ensures(AnalysisHost::<L>::search_for_id, (h, name), ids),
        call_ensures(AnalysisHost::<L>::name_defs, (h, name), defs),
        call_ensures(AnalysisHost::<L>::search, (h, name), spans),
    ensures
        tells_of(h@, ids, |a: AnalysisView| Some(a.ids_named(name@))),
        tells_of(h@, defs, |a: AnalysisView| Some(a.defs_named(name@))),
        tells_of(h@, spans, |a: AnalysisView| Some(a.spans_of(a.ids_named(name@)))),
{
}

/// The roots of the crates and the implementations of a definition are always told, the
/// outline of a file where there is one.
pub proof fn law_asked_of_the_project<L>(
    h: &AnalysisHost<L>,
    id: Id,
    file: &FilePath,
    roots: AResult<Vec<(Id, String)>>,
    impls: AResult<Vec<Span>>,
    symbols: AResult<Vec<SymbolResult>>,
)
    requires
        call_ensures(AnalysisHost::<L>::def_roots, (h,), roots),
        call_ensures(AnalysisHost::<L>::find_impls, (h, id), impls),
        call_ensures(AnalysisHost::<L>::symbols, (h, file), symbols),
    ensures
        tells_of(h@, roots, |a: AnalysisView| Some(a.roots())),
        tells_of(h@, impls, |a: AnalysisView| Some(a.impls(id))),
        tells_of(h@, symbols, |a: AnalysisView| a.symbols(file@)),
{
}

/// The ancestors of a definition are told from the outermost on, where there is one.
pub proof fn law_asked_for_ancestors<L>(
    h: &AnalysisHost<L>,
    id: Id,
    r: AResult<Vec<(Id, String)>>,
    ends: bool,
)
    requires
        call_ensures(AnalysisHost::<L>::def_parents, (h, id), r),
        call_ensures(AnalysisHost::<L>::def_parents_end, (h, id), ends),
    ensures
        tells_of(h@, r, |a: AnalysisView| Some(a.ancestors(id))),
        h@.known() matches Some(a) ==> ends == a.ancestry_ends(id),
        h@.known() is None ==> ends,
{
}

/// A function is called on each child of a definition, and its answers are given in the
/// order of the children.
pub proof fn law_asked_for_children<L, F: FnMut(Id, &Def) -> T, T>(
    h: &AnalysisHost<L>,
    id: Id,
    f: F,
    r: AResult<Vec<T>>,
)
    requires
        call_ensures(AnalysisHost::<L>::for_each_child_def::<F, T>, (h, id, f), r),
    ensures
        h@.analysis_poisoned ==> r == Err::<Vec<T>, AError>(AError::MutexPoison),
        !h@.analysis_poisoned && h@.analysis is None ==> r == Err::<Vec<T>, AError>(
            AError::Unclassified,
        ),
        h@.known() matches Some(a) ==> {
            &&& r is Ok
            &&& r->Ok_0@.len() == a.children(id).len()
            &&& forall|i: int|
                0 <= i < r->Ok_0@.len() ==> answered(f, a.children(id)[i], #[trigger] r->Ok_0@[i])
        },
{
    if let Some(a) = h@.known() {
        assert(answers_for(f, a.children(id), r->Ok_0@));
        assert forall|i: int| 0 <= i < r->Ok_0@.len() implies answered(
            f,
            a.children(id)[i],
            #[trigger] r->Ok_0@[i],
        ) by {
            assert(answers(f, a.children(id)[i], r->Ok_0@[i]));
        }
    }
}

/// Whether a function may answer so on a child and its definition.
pub open spec fn answered<F: FnMut(Id, &Def) -> T, T>(f: F, child: (Id, DefView), answer: T) -> bool {
    exists|def: Def| def@ == child.1 && #[trigger] call_ensures(f, (child.0, &def), answer)
}

/// The addresses on the web are those of the definition at the span.
pub proof fn law_asked_for_addresses<L>(
    h: &AnalysisHost<L>,
    span: &Span,
    path_prefix: Option<&FilePath>,
    doc: AResult<String>,
    src: AResult<String>,
    ends: bool,
)
    requires
        call_ensures(AnalysisHost::<L>::doc_url, (h, span), doc),
        call_ensures(AnalysisHost::<L>::src_url_under, (h, span, path_prefix), src),
        call_ensures(AnalysisHost::<L>::doc_url_ends, (h, span), ends),
    ensures
        tells_of(h@, doc, |a: AnalysisView| a.doc_url_at(span@)),
        tells_of(h@, src, |a: AnalysisView| a.src_url_at(span@, path_prefix.deep_view())),
        h@.known() matches Some(a) ==> (a.id_at(span@) matches Some(id) ==> ends == a.doc_url_ends(
            id,
        )),
        h@.known() is None || h@.known()->0.id_at(span@) is None ==> ends,
{
}

/// The letter of a name space, as it is given for a kind of definition.
pub proof fn law_asked_for_name_space(kind: DefKind, c: char)
    requires
        call_ensures(name_space_for_def_kind, (kind,), c),
    ensures
        c == 'm' <==> kind == DefKind::Macro,
        c == 't' <==> kind == DefKind::Enum || kind == DefKind::Struct || kind == DefKind::Union
            || kind == DefKind::Type || kind == DefKind::ExternType || kind == DefKind::Trait,
        c == 'm' || c == 't' || c == 'v',
{
}

/// Of the files of a directory, those are to be read that are wanted, in order.
pub proof fn law_asked_for_files(
    dir: &FilePath,
    files: &Vec<(String, u128)>,
    times: &Vec<(FilePath, u128)>,
    blacklist: &[&str],
    r: Vec<(FilePath, u128)>,
)
    requires
        call_ensures(files_to_read, (dir, files, times, blacklist), r),
    ensures
        r.deep_view() == files.deep_view().filter(
            |file: (Seq<char>, u128)|
                wanted(
                    dir@,
                    file,
                    times.deep_view(),
                    blacklist@.map_values(|s: &str| s@),
                ),
        ).map_values(
            |file: (Seq<char>, u128)| (dir@.join(PathView { text: file.0 }), file.1),
        ),
{
    let list = blacklist@.map_values(|s: &str| s@);
    law_files_to_read(dir@, files.deep_view(), times.deep_view(), list);
    let place = |file: (Seq<char>, u128)| (dir@.join(PathView { text: file.0 }), file.1);
    let keep = |file: (Seq<char>, u128)|
        wanted(dir@, file, times.deep_view(), list);
    assert(r.deep_view() =~= files.deep_view().filter(keep).map_values(place));
}

/// The address of the source at a span is that under the directory that the loader gives
/// for the project.
pub proof fn law_asked_for_source<L: AnalysisLoader>(
    h: &AnalysisHost<L>,
    span: &Span,
    r: AResult<String>,
) -> (path_prefix: Option<FilePath>)
    requires
        call_ensures(AnalysisHost::<L>::src_url, (h, span), r),
    ensures
        call_ensures(L::abs_path_prefix, (&h.loader_spec(),), path_prefix),
        tells_of(h@, r, |a: AnalysisView| a.src_url_at(span@, path_prefix.deep_view())),
{
    choose|path_prefix: Option<FilePath>|
        {
            &&& #[trigger] call_ensures(L::abs_path_prefix, (&h.loader_spec(),), path_prefix)
            &&& outcome(r) == h@.query(
                |a: AnalysisView| a.src_url_at(span@, path_prefix.deep_view()),
            )
        }
}

/// What a loader for a project that is built with Cargo says of it: that all has to be
/// read again unless it is turned to that project, and where the project is; its fresh
/// hosts hold nothing and are turned to the same project.
pub proof fn law_asked_of_cargo(
    loader: &CargoAnalysisLoader,
    path: &FilePath,
    hard: bool,
    prefix: Option<FilePath>,
    fresh: AnalysisHost<CargoAnalysisLoader>,
)
    requires
        call_ensures(CargoAnalysisLoader::needs_hard_reload, (loader, path), hard),
        call_ensures(CargoAnalysisLoader::abs_path_prefix, (loader,), prefix),
        call_ensures(CargoAnalysisLoader::fresh_host, (loader,), fresh),
    ensures
        loader.path_prefix is None ==> hard && prefix is None,
        loader.path_prefix matches Some(p) ==> {
            &&& hard <==> !(p@.key() == path@.key())
            &&& prefix is Some && prefix->0@ == p@
        },
        fresh@.analysis is None,
        !fresh@.analysis_poisoned,
        !fresh@.numbers_poisoned,
        fresh@.numbers.len() == 0,
        fresh.loader_spec().target == loader.target,
        fresh.loader_spec().path_prefix.deep_view() == loader.path_prefix.deep_view(),
{
}

/// An id is shown by the decimal digits of its number, an error by its sentence.
pub proof fn law_asked_for_text(id: &Id, shown: String, e: &AError, told: String)
    requires
        call_ensures(Id::to_string, (id,), shown),
        call_ensures(AError::to_string, (e,), told),
    ensures
        number(shown@) == id.0,
        shown@.len() > 0,
        shown@[0] == '0' ==> id.0 == 0,
        told@ == (match *e {
            AError::MutexPoison => "poison error in a mutex (usually a secondary error)"@,
            AError::Unclassified => "unknown error"@,
        }),
{
    law_decimal(id.0 as nat);
}

/// A hard reload turns the loader to the project and reads everything. Without a list it
/// is one with an empty list.
pub proof fn law_asked_to_reload_hard<L, F>(
    h: &mut AnalysisHost<L>,
    path_prefix: &FilePath,
    base_dir: &FilePath,
    blacklist: &[&str],
    none: bool,
    read: F,
    r: AResult<()>,
) where
    L: AnalysisLoader,
    F: Fn(&L, &Vec<(FilePath, u128)>, &[&str]) -> Vec<raw::Crate>,

    requires
        if none {
            call_ensures(
                AnalysisHost::<L>::hard_reload::<F>,
                (h, path_prefix, base_dir, read),
                r,
            )
        } else {
            call_ensures(
                AnalysisHost::<L>::hard_reload_with_blacklist::<F>,
                (h, path_prefix, base_dir, blacklist, read),
                r,
            )
        },
    ensures
        exists|loader: &mut L|
            {
                &&& *loader == old(h).loader_spec()
                &&& *final(loader) == final(h).loader_spec()
                &&& #[trigger] call_ensures(L::set_path_prefix, (loader, path_prefix), ())
            },
        !none ==> hard_reloaded(*old(h), *final(h), base_dir, blacklist, read, r),
        none ==> exists|list: &[&str]|
            list@.len() == 0 && #[trigger] hard_reloaded(
                *old(h),
                *final(h),
                base_dir,
                list,
                read,
                r,
            ),
{
}

/// A reload reads everything where nothing is loaded or the loader asks for it, and
/// else only what is newer; behind a poisoned lock it does nothing.
pub proof fn law_asked_to_reload<L, F>(
    h: &mut AnalysisHost<L>,
    path_prefix: &FilePath,
    base_dir: &FilePath,
    blacklist: &[&str],
    read: F,
    r: AResult<()>,
) where
    L: AnalysisLoader,
    F: Fn(&L, &Vec<(FilePath, u128)>, &[&str]) -> Vec<raw::Crate>,

    requires
        call_ensures(
            AnalysisHost::<L>::reload_with_blacklist::<F>,
            (h, path_prefix, base_dir, blacklist, read),
            r,
        ),
    ensures
        old(h)@.analysis_poisoned ==> r == Err::<(), AError>(AError::MutexPoison) && *final(h)
            == *old(h),
        !old(h)@.analysis_poisoned && old(h)@.analysis is None ==> hard_reloaded(
            *old(h),
            *final(h),
            base_dir,
            blacklist,
            read,
            r,
        ),
        !old(h)@.analysis_poisoned && old(h)@.analysis is Some ==> {
            ||| call_ensures(L::needs_hard_reload, (&old(h).loader_spec(), path_prefix), true)
                && hard_reloaded(*old(h), *final(h), base_dir, blacklist, read, r)
            ||| call_ensures(L::needs_hard_reload, (&old(h).loader_spec(), path_prefix), false)
                && updated(*old(h), *final(h), base_dir, blacklist, read, r)
        },
{
}

/// A reload without a list is one with an empty list.
pub proof fn law_asked_to_reload_all<L, F>(
    h: &mut AnalysisHost<L>,
    path_prefix: &FilePath,
    base_dir: &FilePath,
    read: F,
    r: AResult<()>,
) where
    L: AnalysisLoader,
    F: Fn(&L, &Vec<(FilePath, u128)>, &[&str]) -> Vec<raw::Crate>,

    requires
        call_ensures(AnalysisHost::<L>::reload::<F>, (h, path_prefix, base_dir, read), r),
    ensures
        old(h)@.analysis_poisoned ==> r == Err::<(), AError>(AError::MutexPoison) && *final(h)
            == *old(h),
        !old(h)@.analysis_poisoned && old(h)@.analysis is None ==> exists|list: &[&str]|
            list@.len() == 0 && #[trigger] hard_reloaded(
                *old(h),
                *final(h),
                base_dir,
                list,
                read,
                r,
            ),
        !old(h)@.analysis_poisoned && old(h)@.analysis is Some ==> {
            ||| {
                &&& call_ensures(L::needs_hard_reload, (&old(h).loader_spec(), path_prefix), true)
                &&& exists|list: &[&str]|
                    list@.len() == 0 && #[trigger] hard_reloaded(
                        *old(h),
                        *final(h),
                        base_dir,
                        list,
                        read,
                        r,
                    )
            }
            ||| {
                &&& call_ensures(L::needs_hard_reload, (&old(h).loader_spec(), path_prefix), false)
                &&& exists|list: &[&str]|
                    list@.len() == 0 && #[trigger] updated(
                        *old(h),
                        *final(h),
                        base_dir,
                        list,
                        read,
                        r,
                    )
            }
        },
{
}

/// Handing over an analysis is reloading and then, where that succeeded, adding it.
pub proof fn law_asked_to_hand_over<L, F>(
    h: &mut AnalysisHost<L>,
    analysis: raw::Analysis,
    path_prefix: &FilePath,
    base_dir: &FilePath,
    blacklist: &[&str],
    read: F,
    r: AResult<()>,
) where
    L: AnalysisLoader,
    F: Fn(&L, &Vec<(FilePath, u128)>, &[&str]) -> Vec<raw::Crate>,

    requires
        call_ensures(
            AnalysisHost::<L>::reload_from_analysis::<F>,
            (h, analysis, path_prefix, base_dir, blacklist, read),
            r,
        ),
    ensures
        old(h)@.analysis_poisoned ==> r == Err::<(), AError>(AError::MutexPoison) && *final(h)
            == *old(h),
        !old(h)@.analysis_poisoned ==> exists|reloaded: AnalysisHost<L>, first: AResult<()>|
            {
                &&& hard_reloaded(*old(h), reloaded, base_dir, blacklist, read, first) || (
                old(h)@.analysis is Some && updated(
                    *old(h),
                    reloaded,
                    base_dir,
                    blacklist,
                    read,
                    first,
                ))
                &&& #[trigger] then_imported(
                    reloaded@,
                    first,
                    final(h)@,
                    analysis,
                    base_dir@,
                    r,
                )
            },
{
}

/// Crates are loaded one after the other; a hard reload ends with taking over what was
/// loaded on a fresh host.
pub proof fn law_asked_to_load<L>(
    h: &mut AnalysisHost<L>,
    fresh: AnalysisHost<L>,
    krates: &Vec<raw::Crate>,
    base_dir: &FilePath,
    r: AResult<()>,
    hard: bool,
)
    requires
        if hard {
            call_ensures(
                AnalysisHost::<L>::finish_hard_reload,
                (h, fresh, krates, base_dir),
                r,
            )
        } else {
            call_ensures(AnalysisHost::<L>::lower, (h, krates, base_dir), r)
        },
    ensures
        final(h).loader_spec() == old(h).loader_spec(),
        !hard ==> (final(h)@, r) == old(h)@.lower_all(krates@, base_dir@),
        hard ==> (final(h)@, r) == old(h)@.hard_reload(fresh@, krates@, base_dir@),
{
}

/// A path is shown as it was written.
pub proof fn law_asked_for_path(text: &str, path: FilePath, shown: &str)
    requires
        call_ensures(FilePath::named, (text,), path),
        call_ensures(FilePath::as_str, (&path,), shown),
    ensures
        shown@ == text@,
        path@.text == text@,
{
}

/// The missing id has the largest number.
pub proof fn law_asked_for_missing_id(id: Id, value: u64, other: Id)
    requires
        call_ensures(Id::null, (), id),
        call_ensures(Id::new, (value,), other),
    ensures
        id.0 == u64::MAX,
        other.0 == value,
        other.is_null() <==> value == u64::MAX,
{
}

/// A definition, an entry of an outline and a span are taken for what their fields hold.
pub proof fn law_fields(def: Def, symbol: SymbolResult, span: Span)
    ensures
        def@.kind == def.kind,
        def@.span == def.span@,
        def@.name == def.name@,
        def@.qualname == def.qualname@,
        def@.distro_crate == def.distro_crate,
        def@.parent == def.parent,
        def@.value == def.value@,
        def@.docs == def.docs@,
        symbol@.id == symbol.id,
        symbol@.name == symbol.name@,
        symbol@.kind == symbol.kind,
        symbol@.span == symbol.span@,
        span@.file == span.file@,
        span@.range == span.range,
        def.deep_view() == def@,
        symbol.deep_view() == symbol@,
        span.deep_view() == span@,
{
}

} // verus!
