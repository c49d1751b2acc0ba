//! Where the documentation and the source of a definition are on the web. Only
//! crates that the compiler is shipped with have such places.
use vstd::prelude::*;
use vstd::string::*;

use crate::analysis::{first, lemma_first_at, Analysis, AnalysisView};
use crate::basics::Id;
use crate::path::{FilePath, PathView};
use crate::per_crate::{lookup, CrateView, Def, DefView};
use crate::raw::{name_space, name_space_for_def_kind, DefKind};
use crate::span::row_one_indexed;
use crate::text::{decimal, decimal_text, has_char, slashed, slashed_text, trimmed, trimmed_text};

verus! {

/// Whether a definition is documented on the page of its parent.
pub open spec fn on_parent_page(kind: DefKind) -> bool {
    kind == DefKind::Field || kind == DefKind::Method || kind == DefKind::Tuple
}

impl AnalysisView {
    /// The definition on whose page a definition is documented, where it is on
    /// the page of its parent.
    pub open spec fn page_owner(self, d: DefView) -> Option<DefView> {
        match d.parent {
            Some(p) => if d.distro_crate && on_parent_page(d.kind) {
                self.def(p)
            } else {
                None
            },
            None => None,
        }
    }

    /// Whether it takes at most `n` steps from a definition to the page that it
    /// is documented on.
    pub open spec fn page_within(self, d: DefView, n: nat) -> bool
        decreases n,
    {
        match self.page_owner(d) {
            Some(owner) => n > 0 && self.page_within(owner, (n - 1) as nat),
            None => true,
        }
    }

    /// Whether the way from a definition to the page that it is documented on
    /// comes to an end.
    pub open spec fn has_page(self, d: DefView) -> bool {
        exists|n: nat| self.page_within(d, n)
    }

    /// The URL of the documentation of a definition, found in at most `n` steps.
    pub open spec fn doc_url_within(self, d: DefView, n: nat) -> Option<Seq<char>>
        decreases n,
    {
        if !d.distro_crate {
            None
        } else {
            match d.parent {
                Some(p) => match self.def(p) {
                    Some(parent) => Some(
                        if on_parent_page(d.kind) {
                            let page = if n > 0 {
                                self.doc_url_within(parent, (n - 1) as nat)
                            } else {
                                None
                            };
                            let page = match page {
                                Some(url) => url,
                                None => Seq::empty(),
                            };
                            (page + "#"@ + d.name + "."@).push(name_space(d.kind))
                        } else if d.kind == DefKind::Mod {
                            self.doc_url_base + "/"@ + trimmed(slashed(parent.qualname)) + "/"@
                                + d.name + "/"@
                        } else {
                            (self.doc_url_base + "/"@ + slashed(parent.qualname) + "/"@ + d.name
                                + "."@).push(name_space(d.kind)) + ".html"@
                        },
                    ),
                    None => None,
                },
                None => if d.qualname.contains('<') {
                    None
                } else {
                    Some(
                        (self.doc_url_base + "/"@ + slashed(d.qualname) + "."@).push(
                            name_space(d.kind),
                        ) + ".html"@,
                    )
                },
            }
        }
    }

    /// The URL of the documentation of a definition.
    pub open spec fn mk_doc_url(self, d: DefView) -> Option<Seq<char>> {
        self.doc_url_within(d, choose|n: nat| self.page_within(d, n))
    }

    /// However large a bound, it is the same URL that is found.
    pub proof fn lemma_doc_url_bound(self, d: DefView, n: nat, m: nat)
        requires
            self.page_within(d, n),
            self.page_within(d, m),
        ensures
            self.doc_url_within(d, n) == self.doc_url_within(d, m),
        decreases n,
    {
        if let Some(owner) = self.page_owner(d) {
            self.lemma_doc_url_bound(owner, (n - 1) as nat, (m - 1) as nat);
        }
    }

    /// The URL of the documentation of the definition with an id: that of the
    /// first crate where it has one.
    pub open spec fn doc_url(self, id: Id) -> Option<Seq<char>> {
        first(self.crates, self.doc_url_in(id))
    }

    /// The URL of the documentation of a definition as one crate has it.
    pub open spec fn doc_url_in(self, id: Id) -> spec_fn(CrateView) -> Option<Seq<char>> {
        |c: CrateView|
            match lookup(c.defs, id) {
                Some(d) => self.mk_doc_url(d),
                None => None,
            }
    }

    /// Whether the way to the page that a definition is documented on comes to an
    /// end, in each crate up to the first where it has one.
    pub open spec fn doc_url_ends(self, id: Id) -> bool {
        forall|i: int|
            0 <= i < self.crates.len() && (#[trigger] self.crates[i]).1.defs.contains_key(id) && (
            forall|j: int| 0 <= j < i ==> self.doc_url_in(id)((#[trigger] self.crates[j]).1) is None)
                ==> self.has_page(self.crates[i].1.defs[id])
    }

    /// The URL of the source of a definition. The files of the project are those
    /// under the prefix.
    pub open spec fn mk_src_url(self, d: DefView, path_prefix: Option<PathView>) -> Option<
        Seq<char>,
    > {
        if !d.distro_crate {
            None
        } else {
            match path_prefix {
                Some(prefix) => match d.span.file.strip_prefix(prefix) {
                    Some(file) => Some(
                        self.src_url_base + "/"@ + file.text + "#L"@ + decimal(
                            (d.span.range.row_start + 1) as nat,
                        ) + "-L"@ + decimal((d.span.range.row_end + 1) as nat),
                    ),
                    None => None,
                },
                None => None,
            }
        }
    }

    /// The URL of the source of the definition with an id: that of the first crate
    /// where it has one.
    pub open spec fn src_url(self, id: Id, path_prefix: Option<PathView>) -> Option<Seq<char>> {
        first(
            self.crates,
            |c: CrateView|
                match lookup(c.defs, id) {
                    Some(d) => self.mk_src_url(d, path_prefix),
                    None => None,
                },
        )
    }
}

/// Writes the URL of the documentation of a definition.
fn mk_doc_url_within(def: &Def, analysis: &Analysis, n: Ghost<nat>) -> (r: Option<String>)
    requires
        analysis@.page_within(def@, n@),
    ensures
        r.deep_view() == analysis@.doc_url_within(def@, n@),
    decreases n@,
{
    if !def.distro_crate {
        return None;
    }
    let ns: char = name_space_for_def_kind(def.kind);
    match def.parent {
        Some(p) => {
            let parent = match analysis.def(p) {
                Some(parent) => parent,
                None => {
                    return None;
                },
            };
            match def.kind {
                DefKind::Field | DefKind::Method | DefKind::Tuple => {
                    let page = mk_doc_url_within(parent, analysis, Ghost((n@ - 1) as nat));
                    let mut res = match page {
                        Some(url) => url,
                        None => String::new(),
                    };
                    res.append("#");
                    res.append(def.name.as_str());
                    res.append(".");
                    res.push(ns);
                    Some(res)
                },
                DefKind::Mod => {
                    let mut res = analysis.doc_url_base().clone();
                    res.append("/");
                    res.append(
                        trimmed_text(slashed_text(parent.qualname.as_str()).as_str()).as_str(),
                    );
                    res.append("/");
                    res.append(def.name.as_str());
                    res.append("/");
                    Some(res)
                },
                _ => {
                    let mut res = analysis.doc_url_base().clone();
                    res.append("/");
                    res.append(slashed_text(parent.qualname.as_str()).as_str());
                    res.append("/");
                    res.append(def.name.as_str());
                    res.append(".");
                    res.push(ns);
                    res.append(".html");
                    Some(res)
                },
            }
        },
        None => {
            if has_char(def.qualname.as_str(), '<') {
                return None;
            }
            let mut res = analysis.doc_url_base().clone();
            res.append("/");
            res.append(slashed_text(def.qualname.as_str()).as_str());
            res.append(".");
            res.push(ns);
            res.append(".html");
            Some(res)
        },
    }
}

/// The URL of the documentation of a definition.
pub fn mk_doc_url(def: &Def, analysis: &Analysis) -> (r: Option<String>)
    requires
        analysis@.has_page(def@),
    ensures
        r.deep_view() == analysis@.mk_doc_url(def@),
{
    mk_doc_url_within(def, analysis, Ghost(choose|n: nat| analysis@.page_within(def@, n)))
}

/// The URL of the source of a definition.
pub fn mk_src_url(def: &Def, path_prefix: Option<&FilePath>, analysis: &Analysis) -> (r: Option<
    String,
>)
    requires
        def.distro_crate && (path_prefix matches Some(prefix) && def.span.file@.starts_with(prefix@))
            ==> def.span.range.row_start < u32::MAX && def.span.range.row_end < u32::MAX,
    ensures
        r.deep_view() == analysis@.mk_src_url(def@, path_prefix.deep_view()),
{
    if !def.distro_crate {
        return None;
    }
    let prefix = match path_prefix {
        Some(prefix) => prefix,
        None => {
            return None;
        },
    };
    match def.span.file.strip_prefix(prefix) {
        Some(file) => {
            let mut res = analysis.src_url_base().clone();
            res.append("/");
            res.append(file.as_str());
            res.append("#L");
            res.append(
                decimal_text(row_one_indexed(def.span.range.row_start) as u64).as_str(),
            );
            res.append("-L");
            res.append(decimal_text(row_one_indexed(def.span.range.row_end) as u64).as_str());
            Some(res)
        },
        None => None,
    }
}

/// The URL of the documentation of the definition with an id.
#[verifier::loop_isolation(false)]
pub fn doc_url_for(analysis: &Analysis, id: Id) -> (r: Option<String>)
    requires
        analysis@.doc_url_ends(id),
    ensures
        r.deep_view() == analysis@.doc_url(id),
{
    let ghost ask = analysis@.doc_url_in(id);
    for i in 0..analysis.crate_count()
        invariant
            forall|j: int| 0 <= j < i ==> ask((#[trigger] analysis@.crates[j]).1) is None,
    {
        if let Some(def) = analysis.crate_at(i).def(id) {
            let url = mk_doc_url(def, analysis);
            if url.is_some() {
                proof {
                    lemma_first_at(analysis@.crates, ask, i as int);
                }
                return url;
            }
        }
    }
    proof {
        lemma_first_at(analysis@.crates, ask, analysis@.crates.len() as int);
    }
    None
}

/// The URL of the source of the definition with an id.
#[verifier::loop_isolation(false)]
pub fn src_url_for(analysis: &Analysis, id: Id, path_prefix: Option<&FilePath>) -> (r: Option<
    String,
>)
    ensures
        r.deep_view() == analysis@.src_url(id, path_prefix.deep_view()),
{
    let ghost prefix = path_prefix.deep_view();
    let ghost ask = |c: CrateView|
        match lookup(c.defs, id) {
            Some(d) => analysis@.mk_src_url(d, prefix),
            None => None,
        };
    for i in 0..analysis.crate_count()
        invariant
            forall|j: int| 0 <= j < i ==> ask((#[trigger] analysis@.crates[j]).1) is None,
    {
        if let Some(def) = analysis.crate_at(i).def(id) {
            let url = mk_src_url(def, path_prefix, analysis);
            if url.is_some() {
                proof {
                    lemma_first_at(analysis@.crates, ask, i as int);
                }
                return url;
            }
        }
    }
    proof {
        lemma_first_at(analysis@.crates, ask, analysis@.crates.len() as int);
    }
    None
}

} // verus!
