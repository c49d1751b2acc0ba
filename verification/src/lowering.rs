//! Lowering: from the data of one crate, with ids relative to that crate and
//! places counted from one, to data that fits in with the other crates.
use vstd::prelude::*;
use vstd::hash_map::StringHashMap;
use vstd::string::*;

use crate::analysis::{Analysis, AnalysisView};
use crate::basics::{AError, AResult, CrateId, CrateIdView, Id};
use crate::path::{FilePath, PathView};
use crate::per_crate::{CrateView, Def, DefView, Glob, PerCrateAnalysis};
use crate::raw;
use crate::span::{column_zero_indexed, row_zero_indexed, Range, Span, SpanView};

verus! {

/// The numbers of crates with one for a crate: the one it has, or the next.
pub open spec fn numbered(numbers: Map<Seq<char>, u32>, name: Seq<char>) -> Map<Seq<char>, u32> {
    if numbers.contains_key(name) {
        numbers
    } else {
        numbers.insert(name, numbers.len() as u32)
    }
}

/// The numbers of crates with one for each of some crates.
pub open spec fn numbered_all(numbers: Map<Seq<char>, u32>, names: Seq<Seq<char>>) -> Map<
    Seq<char>,
    u32,
>
    decreases names.len(),
{
    if names.len() == 0 {
        numbers
    } else {
        numbered(numbered_all(numbers, names.drop_last()), names.last())
    }
}

/// The name of the first crate that a crate gives a number to.
pub open spec fn external_name(crates: Seq<raw::ExternalCrateData>, num: int) -> Option<Seq<char>>
    decreases crates.len(),
{
    if crates.len() == 0 {
        None
    } else if crates[0].num == num {
        Some(crates[0].name@)
    } else {
        external_name(crates.skip(1), num)
    }
}

/// Whether the crates that a crate depends on have the numbers from one on.
pub open spec fn contiguous(crates: Seq<raw::ExternalCrateData>) -> bool {
    forall|num: int| 1 <= num <= crates.len() ==> #[trigger] external_name(crates, num) is Some
}

/// The names of a crate and of those it depends on, in the order of the numbers
/// that it gives them.
pub open spec fn crate_names(prelude: raw::CratePreludeData) -> Seq<Seq<char>> {
    Seq::new(
        prelude.external_crates@.len() + 1,
        |num: int|
            if num == 0 {
                prelude.crate_name@
            } else {
                external_name(prelude.external_crates@, num)->0
            },
    )
}

/// What it takes to lower the data of a crate.
pub ghost struct ReaderView {
    /// The number of each crate, by the number that this crate gives it.
    pub crate_map: Seq<u32>,
    pub base_dir: PathView,
    pub crate_name: Seq<char>,
    pub distro_crate: bool,
}

/// Whether a definition is known to the project.
pub open spec fn known_def(known: Option<AnalysisView>, id: Id) -> bool {
    known matches Some(a) && a.def(id) is Some
}

/// The span of a crate's data, counted from zero, in a file under the base
/// directory. `None` where a number is zero.
pub open spec fn lowered_span(span: raw::SpanData, base_dir: PathView) -> Option<SpanView> {
    if span.line_start == 0 || span.line_end == 0 || span.column_start == 0 || span.column_end
        == 0 {
        None
    } else {
        Some(
            SpanView {
                file: base_dir.join(span.file_name@),
                range: Range {
                    row_start: (span.line_start - 1) as u32,
                    row_end: (span.line_end - 1) as u32,
                    col_start: (span.column_start - 1) as u32,
                    col_end: (span.column_end - 1) as u32,
                },
            },
        )
    }
}

impl ReaderView {
    /// The id that all crates use: the number of the crate in the upper half and
    /// the index in the lower. The missing id where a part is missing or the
    /// crate is unknown.
    pub open spec fn id(self, id: raw::CompilerId) -> Id {
        if id.krate == u32::MAX || id.index == u32::MAX || id.krate >= self.crate_map.len() {
            Id(u64::MAX)
        } else {
            Id((self.crate_map[id.krate as int] * 0x1_0000_0000 + id.index) as u64)
        }
    }

    pub open spec fn parent(self, parent: Option<raw::CompilerId>) -> Option<Id> {
        match parent {
            Some(id) => if self.id(id).is_null() {
                None
            } else {
                Some(self.id(id))
            },
            None => None,
        }
    }

    pub open spec fn def(self, def: raw::Def, span: SpanView) -> DefView {
        DefView {
            kind: def.kind,
            span,
            name: def.name@,
            qualname: self.crate_name + def.qualname@,
            distro_crate: self.distro_crate,
            parent: self.parent(def.parent),
            value: def.value@,
            docs: def.docs@,
        }
    }

    /// A crate with a definition; one without a proper span is passed over.
    pub open spec fn with_def(self, c: CrateView, def: raw::Def) -> CrateView {
        match lowered_span(def.span, self.base_dir) {
            Some(span) => c.with_def(
                self.id(def.id),
                self.def(def, span),
                def.children@.map_values(|id: raw::CompilerId| self.id(id)),
            ),
            None => c,
        }
    }

    pub open spec fn with_defs(self, c: CrateView, defs: Seq<raw::Def>) -> CrateView
        decreases defs.len(),
    {
        if defs.len() == 0 {
            c
        } else {
            self.with_def(self.with_defs(c, defs.drop_last()), defs.last())
        }
    }

    /// Whether an id is that of a definition in this crate or another.
    pub open spec fn refers(self, c: CrateView, known: Option<AnalysisView>, id: Id) -> bool {
        !id.is_null() && (c.defs.contains_key(id) || known_def(known, id))
    }

    /// A crate with a reference, if it is one to a definition.
    pub open spec fn with_ref(
        self,
        c: CrateView,
        known: Option<AnalysisView>,
        id: raw::CompilerId,
        span: raw::SpanData,
    ) -> CrateView {
        match lowered_span(span, self.base_dir) {
            Some(span) => if self.refers(c, known, self.id(id)) {
                c.with_ref(self.id(id), span)
            } else {
                c
            },
            None => c,
        }
    }

    pub open spec fn with_refs(
        self,
        c: CrateView,
        known: Option<AnalysisView>,
        refs: Seq<raw::Ref>,
    ) -> CrateView
        decreases refs.len(),
    {
        if refs.len() == 0 {
            c
        } else {
            self.with_ref(
                self.with_refs(c, known, refs.drop_last()),
                known,
                refs.last().ref_id,
                refs.last().span,
            )
        }
    }

    /// A crate with an import: a glob where it has a value, else a reference.
    pub open spec fn with_import(
        self,
        c: CrateView,
        known: Option<AnalysisView>,
        import: raw::Import,
    ) -> CrateView {
        if import.value@.len() > 0 {
            match lowered_span(import.span, self.base_dir) {
                Some(span) => c.with_glob(span, import.value@),
                None => c,
            }
        } else {
            match import.ref_id {
                Some(id) => self.with_ref(c, known, id, import.span),
                None => c,
            }
        }
    }

    pub open spec fn with_imports(
        self,
        c: CrateView,
        known: Option<AnalysisView>,
        imports: Seq<raw::Import>,
    ) -> CrateView
        decreases imports.len(),
    {
        if imports.len() == 0 {
            c
        } else {
            self.with_import(
                self.with_imports(c, known, imports.drop_last()),
                known,
                imports.last(),
            )
        }
    }

    /// A crate with an implementation for one of its two ends.
    pub open spec fn with_impl(
        self,
        c: CrateView,
        known: Option<AnalysisView>,
        id: Id,
        span: SpanView,
    ) -> CrateView {
        if self.refers(c, known, id) {
            c.with_impl(id, span)
        } else {
            c
        }
    }

    /// A crate with a relation; only implementations are recorded.
    pub open spec fn with_relation(
        self,
        c: CrateView,
        known: Option<AnalysisView>,
        relation: raw::Relation,
    ) -> CrateView {
        match lowered_span(relation.span, self.base_dir) {
            Some(span) => if relation.kind == raw::RelationKind::Impl {
                self.with_impl(
                    self.with_impl(c, known, self.id(relation.from), span),
                    known,
                    self.id(relation.to),
                    span,
                )
            } else {
                c
            },
            None => c,
        }
    }

    pub open spec fn with_relations(
        self,
        c: CrateView,
        known: Option<AnalysisView>,
        relations: Seq<raw::Relation>,
    ) -> CrateView
        decreases relations.len(),
    {
        if relations.len() == 0 {
            c
        } else {
            self.with_relation(
                self.with_relations(c, known, relations.drop_last()),
                known,
                relations.last(),
            )
        }
    }

    /// A crate with all of its data.
    pub open spec fn with_all(
        self,
        c: CrateView,
        known: Option<AnalysisView>,
        data: raw::Analysis,
    ) -> CrateView {
        let c = self.with_defs(c, data.defs@);
        let c = self.with_imports(c, known, data.imports@);
        let c = self.with_refs(c, known, data.refs@);
        self.with_relations(c, known, data.relations@)
    }
}

/// Whether the data of a crate can be lowered: it says what the crate is and
/// numbers the crates it depends on from one on, and there are numbers left.
pub open spec fn can_lower(numbers: Map<Seq<char>, u32>, krate: raw::Crate) -> bool {
    match krate.analysis.prelude {
        Some(prelude) => {
            &&& contiguous(prelude.external_crates@)
            &&& numbers.len() + prelude.external_crates@.len() < u32::MAX
        },
        None => false,
    }
}

/// The numbers of crates once the data of a crate has been lowered.
pub open spec fn numbers_after(numbers: Map<Seq<char>, u32>, krate: raw::Crate) -> Map<
    Seq<char>,
    u32,
> {
    if can_lower(numbers, krate) {
        numbered_all(numbers, crate_names(krate.analysis.prelude->0))
    } else {
        numbers
    }
}

/// The identity of a crate.
pub open spec fn crate_id(krate: raw::Crate) -> CrateIdView {
    CrateIdView { name: krate.analysis.prelude->0.crate_name@, path: krate.path@ }
}

/// What it takes to lower the data of a crate, given the numbers of the crates
/// met before.
pub open spec fn reader_for(
    numbers: Map<Seq<char>, u32>,
    krate: raw::Crate,
    base_dir: PathView,
) -> ReaderView {
    let prelude = krate.analysis.prelude->0;
    let after = numbers_after(numbers, krate);
    ReaderView {
        crate_map: crate_names(prelude).map_values(|name: Seq<char>| after[name]),
        base_dir,
        crate_name: prelude.crate_name@,
        distro_crate: krate.analysis.distro_crate,
    }
}

/// What is known of a crate once its data has been lowered.
pub open spec fn lowered_crate(
    numbers: Map<Seq<char>, u32>,
    known: Option<AnalysisView>,
    krate: raw::Crate,
    base_dir: PathView,
) -> CrateView {
    reader_for(numbers, krate, base_dir).with_all(
        CrateView::blank(krate.analysis.prelude->0.crate_name@, krate.timestamp),
        known,
        krate.analysis,
    )
}

/// Lowering one crate: the ids and spans of its data are put in terms that all
/// crates share.
pub struct CrateReader {
    crate_map: Vec<u32>,
    base_dir: FilePath,
    crate_name: String,
    distro_crate: bool,
}

impl View for CrateReader {
    type V = ReaderView;

    closed spec fn view(&self) -> ReaderView {
        ReaderView {
            crate_map: self.crate_map@,
            base_dir: self.base_dir@,
            crate_name: self.crate_name@,
            distro_crate: self.distro_crate,
        }
    }
}

/// Finds the crate with a number.
fn find_external(crates: &Vec<raw::ExternalCrateData>, num: u32) -> (r: Option<&String>)
    ensures
        r.deep_view() == external_name(crates@, num as int),
{
    assert(crates@.skip(0) =~= crates@);
    for i in 0..crates.len()
        invariant
            external_name(crates@, num as int) == external_name(crates@.skip(i as int), num as int),
    {
        let ghost rest = crates@.skip(i as int);
        assert(rest[0] == crates@[i as int]);
        assert(rest.skip(1) =~= crates@.skip(i + 1));
        if crates[i].num == num {
            return Some(&crates[i].name);
        }
    }
    None
}

/// The number of a crate; a new crate gets the next one.
fn fetch_number(numbers: &mut StringHashMap<u32>, name: &String) -> (n: u32)
    ensures
        final(numbers)@ == numbered(old(numbers)@, name@),
        n == final(numbers)@[name@],
{
    match numbers.get(name.as_str()) {
        Some(n) => *n,
        None => {
            let n: u32 = numbers.len() as u32;
            numbers.insert(name.clone(), n);
            n
        },
    }
}

/// Once a crate has a number it keeps it.
pub proof fn lemma_number_kept(
    numbers: Map<Seq<char>, u32>,
    names: Seq<Seq<char>>,
    name: Seq<char>,
)
    requires
        numbers.contains_key(name),
    ensures
        numbered_all(numbers, names).contains_key(name),
        numbered_all(numbers, names)[name] == numbers[name],
    decreases names.len(),
{
    if names.len() > 0 {
        lemma_number_kept(numbers, names.drop_last(), name);
    }
}

/// Each of the crates that are given numbers has one.
pub proof fn lemma_numbered_has(numbers: Map<Seq<char>, u32>, names: Seq<Seq<char>>, i: int)
    requires
        0 <= i < names.len(),
    ensures
        numbered_all(numbers, names).contains_key(names[i]),
        numbered_all(numbers, names)[names[i]] == numbered_all(numbers, names.take(i + 1))[names[i]],
    decreases names.len(),
{
    if i == names.len() - 1 {
        assert(names.take(i + 1) =~= names);
    } else {
        lemma_numbered_has(numbers, names.drop_last(), i);
        assert(names.drop_last().take(i + 1) =~= names.take(i + 1));
    }
}

impl CrateReader {
    fn id(&self, id: raw::CompilerId) -> (r: Id)
        ensures
            r == self@.id(id),
    {
        if id.krate == u32::MAX || id.index == u32::MAX || id.krate as usize
            >= self.crate_map.len() {
            Id::null()
        } else {
            let krate: u64 = self.crate_map[id.krate as usize] as u64;
            Id::new(krate * 0x1_0000_0000 + id.index as u64)
        }
    }

    fn parent(&self, parent: Option<raw::CompilerId>) -> (r: Option<Id>)
        ensures
            r == self@.parent(parent),
    {
        match parent {
            Some(id) => {
                let id = self.id(id);
                if id == Id::null() {
                    None
                } else {
                    Some(id)
                }
            },
            None => None,
        }
    }

    fn span(&self, span: &raw::SpanData) -> (r: Option<Span>)
        ensures
            r.deep_view() == lowered_span(*span, self@.base_dir),
            r matches Some(s) ==> s.range.row_start < u32::MAX && s.range.row_end < u32::MAX,
    {
        if span.line_start == 0 || span.line_end == 0 || span.column_start == 0 || span.column_end
            == 0 {
            return None;
        }
        let range = Range {
            row_start: row_zero_indexed(span.line_start),
            row_end: row_zero_indexed(span.line_end),
            col_start: column_zero_indexed(span.column_start),
            col_end: column_zero_indexed(span.column_end),
        };
        Some(Span::new(self.base_dir.join(&span.file_name), range))
    }

    fn refers(&self, c: &PerCrateAnalysis, known: Option<&Analysis>, id: Id) -> (b: bool)
        ensures
            b == self@.refers(c@, known.deep_view(), id),
    {
        if id == Id::null() {
            return false;
        }
        if c.has_def(id) {
            return true;
        }
        match known {
            Some(a) => a.has_def(id),
            None => false,
        }
    }

    fn read_def(&self, c: &mut PerCrateAnalysis, def: &raw::Def)
        ensures
            final(c)@ == self@.with_def(old(c)@, *def),
    {
        if let Some(span) = self.span(&def.span) {
            let ghost ids = def.children@.map_values(|id: raw::CompilerId| self@.id(id));
            let mut children: Vec<Id> = Vec::new();
            for i in 0..def.children.len()
                invariant
                    ids == def.children@.map_values(|id: raw::CompilerId| self@.id(id)),
                    children@ =~= ids.take(i as int),
            {
                children.push(self.id(def.children[i]));
            }
            assert(ids.take(def.children@.len() as int) =~= ids);
            let mut qualname = self.crate_name.clone();
            qualname.append(def.qualname.as_str());
            let lowered = Def {
                kind: def.kind,
                span,
                name: def.name.clone(),
                qualname,
                distro_crate: self.distro_crate,
                parent: self.parent(def.parent),
                value: def.value.clone(),
                docs: def.docs.clone(),
            };
            assert(lowered@ =~= self@.def(*def, lowered@.span));
            c.record_def(self.id(def.id), lowered, &children);
        }
    }

    fn read_defs(&self, c: &mut PerCrateAnalysis, defs: &Vec<raw::Def>)
        ensures
            final(c)@ == self@.with_defs(old(c)@, defs@),
    {
        let ghost before = c@;
        for i in 0..defs.len()
            invariant
                c@ == self@.with_defs(before, defs@.take(i as int)),
        {
            assert(defs@.take(i + 1).drop_last() =~= defs@.take(i as int));
            self.read_def(c, &defs[i]);
        }
        assert(defs@.take(defs@.len() as int) =~= defs@);
    }

    fn read_ref(
        &self,
        c: &mut PerCrateAnalysis,
        known: Option<&Analysis>,
        id: raw::CompilerId,
        span: &raw::SpanData,
    )
        ensures
            final(c)@ == self@.with_ref(old(c)@, known.deep_view(), id, *span),
    {
        if let Some(span) = self.span(span) {
            let id = self.id(id);
            if self.refers(c, known, id) {
                c.record_ref(id, span);
            }
        }
    }

    fn read_refs(&self, c: &mut PerCrateAnalysis, known: Option<&Analysis>, refs: &Vec<raw::Ref>)
        ensures
            final(c)@ == self@.with_refs(old(c)@, known.deep_view(), refs@),
    {
        let ghost before = c@;
        for i in 0..refs.len()
            invariant
                c@ == self@.with_refs(before, known.deep_view(), refs@.take(i as int)),
        {
            assert(refs@.take(i + 1).drop_last() =~= refs@.take(i as int));
            self.read_ref(c, known, refs[i].ref_id, &refs[i].span);
        }
        assert(refs@.take(refs@.len() as int) =~= refs@);
    }

    fn read_import(
        &self,
        c: &mut PerCrateAnalysis,
        known: Option<&Analysis>,
        import: &raw::Import,
    )
        ensures
            final(c)@ == self@.with_import(old(c)@, known.deep_view(), *import),
    {
        if !import.value.as_str().is_empty() {
            if let Some(span) = self.span(&import.span) {
                c.record_glob(span, Glob { value: import.value.clone() });
            }
        } else if let Some(id) = import.ref_id {
            self.read_ref(c, known, id, &import.span);
        }
    }

    fn read_imports(
        &self,
        c: &mut PerCrateAnalysis,
        known: Option<&Analysis>,
        imports: &Vec<raw::Import>,
    )
        ensures
            final(c)@ == self@.with_imports(old(c)@, known.deep_view(), imports@),
    {
        let ghost before = c@;
        for i in 0..imports.len()
            invariant
                c@ == self@.with_imports(before, known.deep_view(), imports@.take(i as int)),
        {
            assert(imports@.take(i + 1).drop_last() =~= imports@.take(i as int));
            self.read_import(c, known, &imports[i]);
        }
        assert(imports@.take(imports@.len() as int) =~= imports@);
    }

    fn read_relation(
        &self,
        c: &mut PerCrateAnalysis,
        known: Option<&Analysis>,
        relation: &raw::Relation,
    )
        ensures
            final(c)@ == self@.with_relation(old(c)@, known.deep_view(), *relation),
    {
        if let Some(span) = self.span(&relation.span) {
            if relation.kind == raw::RelationKind::Impl {
                let from = self.id(relation.from);
                if self.refers(c, known, from) {
                    c.record_impl(from, span.clone());
                }
                let to = self.id(relation.to);
                if self.refers(c, known, to) {
                    c.record_impl(to, span);
                }
            }
        }
    }

    fn read_relations(
        &self,
        c: &mut PerCrateAnalysis,
        known: Option<&Analysis>,
        relations: &Vec<raw::Relation>,
    )
        ensures
            final(c)@ == self@.with_relations(old(c)@, known.deep_view(), relations@),
    {
        let ghost before = c@;
        for i in 0..relations.len()
            invariant
                c@ == self@.with_relations(before, known.deep_view(), relations@.take(i as int)),
        {
            assert(relations@.take(i + 1).drop_last() =~= relations@.take(i as int));
            self.read_relation(c, known, &relations[i]);
        }
        assert(relations@.take(relations@.len() as int) =~= relations@);
    }
}

/// Lowers the data of a crate. `known` is what the project knows so far.
pub fn lower_crate(
    krate: &raw::Crate,
    base_dir: &FilePath,
    numbers: &mut StringHashMap<u32>,
    known: Option<&Analysis>,
) -> (r: AResult<(CrateId, PerCrateAnalysis)>)
    ensures
        final(numbers)@ == numbers_after(old(numbers)@, *krate),
        match r {
            Ok((id, data)) => {
                &&& can_lower(old(numbers)@, *krate)
                &&& id@ == crate_id(*krate)
                &&& data@ == lowered_crate(old(numbers)@, known.deep_view(), *krate, base_dir@)
            },
            Err(e) => !can_lower(old(numbers)@, *krate) && e == AError::Unclassified,
        },
{
    let ghost before = numbers@;
    let prelude = match &krate.analysis.prelude {
        Some(prelude) => prelude,
        None => {
            return Err(AError::Unclassified);
        },
    };
    let external = &prelude.external_crates;
    let used: usize = numbers.len();
    let count: usize = external.len();
    if used >= u32::MAX as usize || count >= u32::MAX as usize - used {
        return Err(AError::Unclassified);
    }
    for num in 1..count + 1
        invariant
            count == external@.len(),
            count < u32::MAX,
            external == &krate.analysis.prelude->0.external_crates,
            krate.analysis.prelude is Some,
            numbers@ == before,
            forall|k: int| 1 <= k < num ==> #[trigger] external_name(external@, k) is Some,
    {
        if find_external(external, num as u32).is_none() {
            return Err(AError::Unclassified);
        }
    }
    let ghost names = crate_names(*prelude);
    let mut crate_map: Vec<u32> = Vec::new();
    let n: u32 = fetch_number(numbers, &prelude.crate_name);
    crate_map.push(n);
    proof {
        assert(names.take(1).drop_last() =~= Seq::empty());
        assert(numbered_all(before, names.take(1).drop_last()) == before);
        assert(names.take(1).last() == prelude.crate_name@);
    }
    for num in 1..count + 1
        invariant
            count == external@.len(),
            count < u32::MAX,
            *external == prelude.external_crates,
            contiguous(external@),
            names == crate_names(*prelude),
            numbers@ == numbered_all(before, names.take(num as int)),
            crate_map@.len() == num,
            forall|k: int|
                0 <= k < num ==> #[trigger] crate_map@[k] == numbered_all(
                    before,
                    names.take(k + 1),
                )[names[k]],
    {
        assert(external_name(external@, num as int) is Some);
        if let Some(name) = find_external(external, num as u32) {
            proof {
                assert(names.take(num + 1).drop_last() =~= names.take(num as int));
                assert(names.take(num + 1).last() == name@);
            }
            let n: u32 = fetch_number(numbers, name);
            crate_map.push(n);
        }
    }
    proof {
        assert(names.take(count + 1) =~= names);
        let after = numbers@;
        assert forall|k: int| 0 <= k < crate_map@.len() implies #[trigger] crate_map@[k]
            == after[names[k]] by {
            lemma_numbered_has(before, names, k);
        }
        assert(crate_map@ =~= names.map_values(|name: Seq<char>| after[name]));
    }
    let reader = CrateReader {
        crate_map,
        base_dir: base_dir.clone(),
        crate_name: prelude.crate_name.clone(),
        distro_crate: krate.analysis.distro_crate,
    };
    let mut data = PerCrateAnalysis::new(prelude.crate_name.clone(), krate.timestamp);
    reader.read_defs(&mut data, &krate.analysis.defs);
    reader.read_imports(&mut data, known, &krate.analysis.imports);
    reader.read_refs(&mut data, known, &krate.analysis.refs);
    reader.read_relations(&mut data, known, &krate.analysis.relations);
    Ok((CrateId::new(prelude.crate_name.clone(), krate.path.clone()), data))
}

} // verus!
