//! Places in source files.
use vstd::prelude::*;

use crate::path::{FilePath, PathKey, PathView};
use crate::table::TableKey;

verus! {

/// Rows and columns, both counted from zero.
#[derive(Copy, Clone, PartialEq, Eq, Structural, Debug, Hash)]
pub struct Range {
    pub row_start: u32,
    pub row_end: u32,
    pub col_start: u32,
    pub col_end: u32,
}

/// A range of a file.
#[derive(PartialEq, Eq, Debug, Hash)]
pub struct Span {
    pub file: FilePath,
    pub range: Range,
}

/// What a [`Span`] holds.
#[verifier::ext_equal]
pub ghost struct SpanView {
    pub file: PathView,
    pub range: Range,
}

/// What a span stands for: a range of what its path names.
#[verifier::ext_equal]
pub ghost struct SpanKey {
    pub file: PathKey,
    pub range: Range,
}

impl SpanView {
    /// What the span stands for.
    pub open spec fn key(self) -> SpanKey {
        SpanKey { file: self.file.key(), range: self.range }
    }
}

impl View for Span {
    type V = SpanView;

    open spec fn view(&self) -> SpanView {
        SpanView { file: self.file@, range: self.range }
    }
}

impl DeepView for Span {
    type V = SpanView;

    open spec fn deep_view(&self) -> SpanView {
        self@
    }
}

impl Clone for Span {
    fn clone(&self) -> (s: Span)
        ensures
            s@ == self@,
    {
        Span { file: self.file.clone(), range: self.range }
    }
}

impl Span {
    pub fn new(file: FilePath, range: Range) -> (s: Span)
        ensures
            s == (Span { file, range }),
    {
        Span { file, range }
    }

    /// Whether two spans are the same range of the same file.
    pub fn same(&self, other: &Span) -> (b: bool)
        ensures
            b == (self@.key() == other@.key()),
    {
        self.range == other.range && self.file.same(&other.file)
    }
}

/// `rls_span::Row::one_indexed`: the number of a row, counted from one instead
/// of zero, is one more.
#[verifier::external_body]
pub(crate) fn row_one_indexed(row: u32) -> (r: u32)
    requires
        row < u32::MAX,
    ensures
        r == row + 1,
{
    rls_span::Row::new_zero_indexed(row).one_indexed().0
}

/// `rls_span::Row::zero_indexed`: the number of a row, counted from zero instead
/// of one, is one less.
#[verifier::external_body]
pub(crate) fn row_zero_indexed(row: u32) -> (r: u32)
    requires
        row > 0,
    ensures
        r == row - 1,
{
    rls_span::Row::new_one_indexed(row).zero_indexed().0
}

/// `rls_span::Column::zero_indexed`: the number of a column, counted from zero
/// instead of one, is one less.
#[verifier::external_body]
pub(crate) fn column_zero_indexed(column: u32) -> (r: u32)
    requires
        column > 0,
    ensures
        r == column - 1,
{
    rls_span::Column::new_one_indexed(column).zero_indexed().0
}

impl TableKey for Span {
    type Key = SpanKey;

    open spec fn key(&self) -> SpanKey {
        self@.key()
    }

    open spec fn code(span: SpanKey) -> u64 {
        (span.range.row_start * 0x1_0000_0000 + span.range.col_start) as u64
    }

    fn table_code(&self) -> u64 {
        self.range.row_start as u64 * 0x1_0000_0000 + self.range.col_start as u64
    }

    fn same_key(&self, other: &Span) -> bool {
        self.same(other)
    }
}

impl TableKey for FilePath {
    type Key = PathKey;

    open spec fn key(&self) -> PathKey {
        self@.key()
    }

    open spec fn code(path: PathKey) -> u64 {
        path.parts.len() as u64
    }

    fn table_code(&self) -> u64 {
        self.part_count() as u64
    }

    fn same_key(&self, other: &FilePath) -> bool {
        self.same(other)
    }
}

} // verus!
