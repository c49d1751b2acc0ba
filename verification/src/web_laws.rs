//! What the addresses of documentation and source look like, letter by letter.
use vstd::prelude::*;

use crate::analysis::{lemma_first_from, AnalysisView};
use crate::basics::{AError, Id};
use crate::path::PathView;
use crate::per_crate::{lookup, CrateView, DefView};
use crate::raw::{name_space, DefKind};
use crate::span::SpanView;
use crate::text::{decimal, slashed, trimmed};

verus! {

/// Types live in the name space `t`, macros in `m` and all else in `v`.
pub proof fn law_name_spaces(kind: DefKind)
    ensures
        name_space(kind) == (match kind {
            DefKind::Enum => 't',
            DefKind::TupleVariant => 'v',
            DefKind::StructVariant => 'v',
            DefKind::Tuple => 'v',
            DefKind::Struct => 't',
            DefKind::Union => 't',
            DefKind::Trait => 't',
            DefKind::Function => 'v',
            DefKind::ForeignFunction => 'v',
            DefKind::Method => 'v',
            DefKind::Macro => 'm',
            DefKind::Mod => 'v',
            DefKind::Type => 't',
            DefKind::Local => 'v',
            DefKind::Static => 'v',
            DefKind::ForeignStatic => 'v',
            DefKind::Const => 'v',
            DefKind::Field => 'v',
            DefKind::ExternType => 't',
        }),
{
}

/// Whether two colons stand at a position.
pub open spec fn colons_at(s: Seq<char>, i: int) -> bool {
    0 <= i && i + 1 < s.len() && s[i] == ':' && s[i + 1] == ':'
}

/// A name without doubled colons is a path as it is. Else the first two that stand
/// together become a slash, what is before them stays, and what is behind them is
/// treated the same way.
pub proof fn law_colons_to_slashes(s: Seq<char>, i: int)
    ensures
        (forall|j: int| !#[trigger] colons_at(s, j)) ==> slashed(s) == s,
        colons_at(s, i) && (forall|j: int| j < i ==> !#[trigger] colons_at(s, j)) ==> slashed(s)
            == s.take(i).push('/') + slashed(s.skip(i + 2)),
    decreases s.len(),
{
    if s.len() > 0 {
        let rest = s.skip(1);
        law_colons_to_slashes(rest, i - 1);
        assert forall|j: int| j >= 0 implies #[trigger] colons_at(rest, j) == colons_at(s, j + 1) by {}
        if forall|j: int| !#[trigger] colons_at(s, j) {
            assert(!colons_at(s, 0));
            assert forall|j: int| !#[trigger] colons_at(rest, j) by {
                if j >= 0 {
                    assert(!colons_at(s, j + 1));
                }
            }
            assert(slashed(s) =~= s);
        }
        if colons_at(s, i) && (forall|j: int| j < i ==> !#[trigger] colons_at(s, j)) {
            if i == 0 {
                assert(slashed(s) =~= s.take(0).push('/') + slashed(s.skip(2)));
            } else {
                assert(!colons_at(s, 0));
                assert forall|j: int| j < i - 1 implies !#[trigger] colons_at(rest, j) by {
                    if j >= 0 {
                        assert(!colons_at(s, j + 1));
                    }
                }
                assert(rest.skip(i + 1) =~= s.skip(i + 2));
                assert(slashed(s) =~= s.take(i).push('/') + slashed(s.skip(i + 2)));
            }
        }
    }
}

/// Trimmed text is the text up to the slashes at its end: it does not end with one, and
/// only slashes come behind it.
pub proof fn law_trimmed(s: Seq<char>)
    ensures
        trimmed(s).is_prefix_of(s),
        trimmed(s).len() > 0 ==> trimmed(s).last() != '/',
        forall|i: int| trimmed(s).len() <= i < s.len() ==> #[trigger] s[i] == '/',
    decreases s.len(),
{
    if s.len() > 0 && s.last() == '/' {
        let t = trimmed(s);
        law_trimmed(s.drop_last());
        assert(t =~= s.subrange(0, t.len() as int));
        assert forall|i: int| t.len() <= i < s.len() implies #[trigger] s[i] == '/' by {
            if i < s.len() - 1 {
                assert(s.drop_last()[i] == s[i]);
            }
        }
    } else {
        assert(s =~= s.subrange(0, s.len() as int));
    }
}

/// The number that some decimal digits stand for.
pub open spec fn number(digits: Seq<char>) -> int
    decreases digits.len(),
{
    if digits.len() == 0 {
        0
    } else {
        10 * number(digits.drop_last()) + (digits.last() as int - '0' as int)
    }
}

/// The decimal digits of a number are digits, stand for the number, and do not start with
/// zero unless it is zero.
pub proof fn law_decimal(n: nat)
    ensures
        decimal(n).len() > 0,
        forall|i: int| 0 <= i < decimal(n).len() ==> '0' <= #[trigger] decimal(n)[i] <= '9',
        number(decimal(n)) == n,
        n > 0 ==> decimal(n)[0] != '0',
        n == 0 ==> decimal(n) == seq!['0'],
    decreases n,
{
    let s = decimal(n);
    if n < 10 {
        assert(s.drop_last().len() == 0);
        assert(number(s) == 10 * number(s.drop_last()) + (s.last() as int - '0' as int));
    } else {
        let front = decimal(n / 10);
        law_decimal(n / 10);
        assert(s.drop_last() =~= front);
        assert(number(s) == 10 * number(front) + (s.last() as int - '0' as int));
        assert forall|i: int| 0 <= i < s.len() implies '0' <= #[trigger] s[i] <= '9' by {
            if i < front.len() {
                assert(s[i] == front[i]);
            }
        }
        assert(s[0] == front[0]);
    }
}

/// Only definitions of shipped crates are documented on the web. One without a parent is
/// so under its own qualified name, unless that is generic; one with a parent only where
/// the parent is defined.
pub proof fn law_doc_url_without_parent(a: AnalysisView, d: DefView)
    ensures
        !d.distro_crate ==> a.mk_doc_url(d) is None,
        d.distro_crate && d.parent is None && d.qualname.contains('<') ==> a.mk_doc_url(d) is None,
        d.distro_crate && d.parent is None && !d.qualname.contains('<') ==> a.mk_doc_url(d) == Some(
            a.doc_url_base + "/"@ + slashed(d.qualname) + "."@ + seq![name_space(d.kind)]
                + ".html"@,
        ),
        d.distro_crate && (d.parent matches Some(p) && a.def(p) is None) ==> a.mk_doc_url(d) is None,
{
    let url = a.doc_url_base + "/"@ + slashed(d.qualname) + "."@ + seq![name_space(d.kind)]
        + ".html"@;
    assert(url =~= (a.doc_url_base + "/"@ + slashed(d.qualname) + "."@).push(name_space(d.kind))
        + ".html"@);
}

/// A module with a parent has a directory of its own in that of its parent; what is
/// neither a module nor a field, method or tuple part has a page of its own there.
pub proof fn law_doc_url_in_parent(a: AnalysisView, d: DefView, parent: DefView)
    requires
        d.distro_crate,
        d.parent matches Some(p) && a.def(p) == Some(parent),
    ensures
        d.kind == DefKind::Mod ==> a.mk_doc_url(d) == Some(
            a.doc_url_base + "/"@ + trimmed(slashed(parent.qualname)) + "/"@ + d.name + "/"@,
        ),
        !(d.kind == DefKind::Mod || d.kind == DefKind::Field || d.kind == DefKind::Method || d.kind
            == DefKind::Tuple) ==> a.mk_doc_url(d) == Some(
            a.doc_url_base + "/"@ + slashed(parent.qualname) + "/"@ + d.name + "."@
                + seq![name_space(d.kind)] + ".html"@,
        ),
{
    let url = a.doc_url_base + "/"@ + slashed(parent.qualname) + "/"@ + d.name + "."@
        + seq![name_space(d.kind)] + ".html"@;
    assert(url =~= (a.doc_url_base + "/"@ + slashed(parent.qualname) + "/"@ + d.name + "."@).push(
        name_space(d.kind),
    ) + ".html"@);
}

/// A field, a method or a tuple part is documented on the page of its parent, under a
/// mark made of its name and the letter of its name space.
pub proof fn law_doc_url_of_member(a: AnalysisView, d: DefView, parent: DefView)
    requires
        d.distro_crate,
        d.kind == DefKind::Field || d.kind == DefKind::Method || d.kind == DefKind::Tuple,
        d.parent matches Some(p) && a.def(p) == Some(parent),
    ensures
        a.has_page(d) <==> a.has_page(parent),
        a.has_page(parent) && a.mk_doc_url(parent) is Some ==> a.mk_doc_url(d) == Some(
            a.mk_doc_url(parent)->0 + "#"@ + d.name + "."@ + seq![name_space(d.kind)],
        ),
        a.has_page(parent) && a.mk_doc_url(parent) is None ==> a.mk_doc_url(d) == Some(
            "#"@ + d.name + "."@ + seq![name_space(d.kind)],
        ),
{
    assert(a.page_owner(d) == Some(parent));
    if a.has_page(parent) {
        let n = choose|n: nat| a.page_within(parent, n);
        assert(a.page_within(d, n + 1));
        let k = choose|k: nat| a.page_within(d, k);
        assert(a.page_within(parent, (k - 1) as nat));
        a.lemma_doc_url_bound(parent, (k - 1) as nat, n);
        match a.mk_doc_url(parent) {
            Some(url) => {
                assert((url + "#"@ + d.name + "."@).push(name_space(d.kind)) =~= url + "#"@ + d.name
                    + "."@ + seq![name_space(d.kind)]);
            },
            None => {
                assert((Seq::<char>::empty() + "#"@ + d.name + "."@).push(name_space(d.kind))
                    =~= "#"@ + d.name + "."@ + seq![name_space(d.kind)]);
            },
        }
    }
    if a.has_page(d) {
        let k = choose|k: nat| a.page_within(d, k);
        assert(a.page_within(parent, (k - 1) as nat));
    }
}

/// What is not a field, method or tuple part of a shipped crate with a parent that is
/// defined needs no other page.
pub proof fn law_own_page(a: AnalysisView, d: DefView)
    ensures
        !d.distro_crate || d.parent is None || a.def(d.parent->0) is None || !(d.kind
            == DefKind::Field || d.kind == DefKind::Method || d.kind == DefKind::Tuple)
            ==> a.has_page(d),
{
    if a.page_owner(d) is None {
        assert(a.page_within(d, 0));
    }
}

/// A way of members, each inside the next, that always goes on leads to no page.
pub proof fn law_endless_way_to_a_page(a: AnalysisView, way: spec_fn(nat) -> DefView)
    requires
        forall|k: nat|
            {
                let d = #[trigger] way(k);
                &&& d.distro_crate
                &&& d.kind == DefKind::Field || d.kind == DefKind::Method || d.kind
                    == DefKind::Tuple
                &&& d.parent is Some
                &&& a.def(d.parent->0) == Some(way(k + 1))
            },
    ensures
        !a.has_page(way(0)),
{
    let start = way(0);
    assert forall|n: nat| !(#[trigger] a.page_within(start, n)) by {
        lemma_endless_way(a, way, 0, n);
    }
}

proof fn lemma_endless_way(a: AnalysisView, way: spec_fn(nat) -> DefView, k: nat, n: nat)
    requires
        forall|k: nat|
            {
                let d = #[trigger] way(k);
                &&& d.distro_crate
                &&& d.kind == DefKind::Field || d.kind == DefKind::Method || d.kind
                    == DefKind::Tuple
                &&& d.parent is Some
                &&& a.def(d.parent->0) == Some(way(k + 1))
            },
    ensures
        !a.page_within(way(k), n),
    decreases n,
{
    let d = way(k);
    assert(a.page_owner(d) == Some(way(k + 1)));
    if n > 0 {
        lemma_endless_way(a, way, k + 1, (n - 1) as nat);
    }
}

/// Whether a crate defines something that is documented on the web.
pub open spec fn documented(a: AnalysisView, c: CrateView, id: Id) -> bool {
    c.defs.contains_key(id) && a.mk_doc_url(c.defs[id]) is Some
}

/// The address of the documentation of a definition is that of the first crate where it
/// has one; and where each crate up to that one leads to a page, it is found.
pub proof fn law_doc_url_of_first_crate(a: AnalysisView, id: Id, i: int)
    ensures
        0 <= i < a.crates.len() && documented(a, a.crates[i].1, id) && (forall|j: int|
            0 <= j < i ==> !documented(a, (#[trigger] a.crates[j]).1, id)) ==> a.doc_url(id)
            == a.mk_doc_url(a.crates[i].1.defs[id]),
        a.doc_url(id) is None <==> forall|j: int|
            0 <= j < a.crates.len() ==> !documented(a, (#[trigger] a.crates[j]).1, id),
        (forall|j: int|
            0 <= j < a.crates.len() && (#[trigger] a.crates[j]).1.defs.contains_key(id)
                ==> a.has_page(a.crates[j].1.defs[id])) ==> a.doc_url_ends(id),
{
    let ask = a.doc_url_in(id);
    let at = lemma_first_from(a.crates, ask);
    assert forall|j: int| 0 <= j < a.crates.len() implies (ask((#[trigger] a.crates[j]).1) is Some
        <==> documented(a, a.crates[j].1, id)) by {}
    if at < a.crates.len() {
        assert(documented(a, a.crates[at].1, id));
    }
}

/// The source of a definition of a shipped crate is at the path of its file behind the
/// prefix of the project, with its first and last row counted from one. There is no such
/// address for another crate, without a prefix or outside of it.
pub proof fn law_src_url(a: AnalysisView, d: DefView, prefix: PathView)
    ensures
        !d.distro_crate ==> a.mk_src_url(d, Some(prefix)) is None,
        a.mk_src_url(d, None) is None,
        d.span.file.strip_prefix(prefix) is None ==> a.mk_src_url(d, Some(prefix)) is None,
        d.distro_crate ==> (d.span.file.strip_prefix(prefix) matches Some(file) ==> a.mk_src_url(
            d,
            Some(prefix),
        ) == Some(
            a.src_url_base + "/"@ + file.text + "#L"@ + decimal(d.span.range.row_start as nat + 1)
                + "-L"@ + decimal(d.span.range.row_end as nat + 1),
        )),
{
}

/// Whether a crate defines something whose source is on the web.
pub open spec fn has_source(
    a: AnalysisView,
    c: CrateView,
    id: Id,
    path_prefix: Option<PathView>,
) -> bool {
    c.defs.contains_key(id) && a.mk_src_url(c.defs[id], path_prefix) is Some
}

/// The address of the source of a definition is that of the first crate where it has one.
pub proof fn law_src_url_of_first_crate(
    a: AnalysisView,
    id: Id,
    path_prefix: Option<PathView>,
    i: int,
)
    ensures
        0 <= i < a.crates.len() && has_source(a, a.crates[i].1, id, path_prefix) && (forall|j: int|
            0 <= j < i ==> !has_source(a, (#[trigger] a.crates[j]).1, id, path_prefix))
            ==> a.src_url(id, path_prefix) == a.mk_src_url(a.crates[i].1.defs[id], path_prefix),
        a.src_url(id, path_prefix) is None <==> forall|j: int|
            0 <= j < a.crates.len() ==> !has_source(a, (#[trigger] a.crates[j]).1, id, path_prefix),
{
    let ask = |c: CrateView|
        match lookup(c.defs, id) {
            Some(d) => a.mk_src_url(d, path_prefix),
            None => None,
        };
    let at = lemma_first_from(a.crates, ask);
    assert forall|j: int| 0 <= j < a.crates.len() implies (ask((#[trigger] a.crates[j]).1) is Some
        <==> has_source(a, a.crates[j].1, id, path_prefix)) by {}
    if at < a.crates.len() {
        assert(has_source(a, a.crates[at].1, id, path_prefix));
    }
}

/// The addresses at a span are those of the definition there.
pub proof fn law_web_at_a_span(a: AnalysisView, span: SpanView, path_prefix: Option<PathView>)
    ensures
        a.id_at(span) matches Some(id) ==> a.doc_url_at(span) == a.doc_url(id) && a.src_url_at(
            span,
            path_prefix,
        ) == a.src_url(id, path_prefix),
        a.id_at(span) is None ==> a.doc_url_at(span) is None && a.src_url_at(
            span,
            path_prefix,
        ) is None,
{
}

/// What an error says of itself.
pub proof fn law_sentences(e: AError)
    ensures
        e.sentence() == (match e {
            AError::MutexPoison => "poison error in a mutex (usually a secondary error)"@,
            AError::Unclassified => "unknown error"@,
        }),
{
}

} // verus!
